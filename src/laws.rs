use vstd::prelude::*;
use crate::commit::{absent_keys, apply_write, apply_writes, deletes, is_commit_of, upserts, StoreWrite};
use crate::entropy::EntropySource;
use crate::payment::PaymentView;
use crate::pool::{
    keys_unique, lemma_empty_when_sum_zero, lemma_sum_remove, pool_has_key, pool_map, pool_sum,
    pool_wf, DropItem,
};
use crate::session::StorageCache;

verus! {

proof fn lemma_apply_append(m: Map<PaymentView, nat>, a: Seq<StoreWrite>, b: Seq<StoreWrite>)
    ensures
        apply_writes(m, a + b) == apply_writes(apply_writes(m, a), b),
    decreases b.len(),
{
    if b.len() == 0 {
        assert(a + b =~= a);
    } else {
        lemma_apply_append(m, a, b.drop_last());
        assert((a + b).drop_last() =~= a + b.drop_last());
        assert((a + b).last() == b.last());
    }
}

proof fn lemma_map_has(s: Seq<DropItem>, k: PaymentView)
    ensures
        pool_map(s).contains_key(k) <==> pool_has_key(s, k),
    decreases s.len(),
{
    if s.len() > 0 {
        let d = s.drop_last();
        lemma_map_has(d, k);
        if pool_has_key(d, k) {
            let i = choose|i: int| 0 <= i < d.len() && #[trigger] d[i].drop_content@ == k;
            assert(s[i] == d[i]);
        }
        if pool_has_key(s, k) && s.last().drop_content@ != k {
            let i = choose|i: int| 0 <= i < s.len() && #[trigger] s[i].drop_content@ == k;
            assert(d[i] == s[i]);
        }
        if s.last().drop_content@ == k {
            assert(s[s.len() - 1].drop_content@ == k);
        }
    }
}

proof fn lemma_upserts_prefix(m: Map<PaymentView, nat>, ws: Seq<StoreWrite>, s: Seq<DropItem>, i: int)
    requires
        0 <= i <= s.len() <= ws.len(),
        forall|j: int| 0 <= j < s.len() ==> upserts(#[trigger] ws[j], s[j]),
    ensures
        apply_writes(m, ws.take(i)) == m.union_prefer_right(pool_map(s.take(i))),
    decreases i,
{
    if i == 0 {
        assert(ws.take(0) =~= Seq::<StoreWrite>::empty());
        assert(s.take(0) =~= Seq::<DropItem>::empty());
        assert(m.union_prefer_right(Map::empty()) =~= m);
    } else {
        lemma_upserts_prefix(m, ws, s, i - 1);
        assert(ws.take(i).drop_last() =~= ws.take(i - 1));
        assert(s.take(i).drop_last() =~= s.take(i - 1));
        assert(upserts(ws[i - 1], s[i - 1]));
        let k = s[i - 1].drop_content@;
        let v = s[i - 1].amount_left as nat;
        assert(apply_write(apply_writes(m, ws.take(i - 1)), ws[i - 1]) == apply_writes(
            m,
            ws.take(i - 1),
        ).insert(k, v));
        assert(m.union_prefer_right(pool_map(s.take(i - 1))).insert(k, v) =~= m.union_prefer_right(
            pool_map(s.take(i - 1)).insert(k, v),
        ));
    }
}

proof fn lemma_deletes(m: Map<PaymentView, nat>, ds: Seq<StoreWrite>, keys: Seq<PaymentView>)
    requires
        ds.len() == keys.len(),
        forall|j: int| 0 <= j < ds.len() ==> deletes(#[trigger] ds[j], keys[j]),
    ensures
        forall|k: PaymentView|
            #[trigger] apply_writes(m, ds).contains_key(k) <==> (m.contains_key(k)
                && !keys.contains(k)),
        forall|k: PaymentView|
            #[trigger] apply_writes(m, ds).contains_key(k) ==> apply_writes(m, ds)[k] == m[k],
    decreases ds.len(),
{
    if ds.len() == 0 {
        assert forall|k: PaymentView| !#[trigger] keys.contains(k) by {}
    } else {
        let n = ds.len() - 1;
        assert forall|j: int| 0 <= j < n implies deletes(#[trigger] ds.drop_last()[j], keys.drop_last()[j]) by {
            assert(ds.drop_last()[j] == ds[j]);
        }
        lemma_deletes(m, ds.drop_last(), keys.drop_last());
        assert(deletes(ds[n], keys[n]));
        let prev = apply_writes(m, ds.drop_last());
        assert(apply_writes(m, ds) == prev.remove(keys[n]));
        assert forall|k: PaymentView| #[trigger] keys.contains(k) <==> (keys.drop_last().contains(k)
            || keys.last() == k) by {
            if keys.contains(k) {
                let j = choose|j: int| 0 <= j < keys.len() && keys[j] == k;
                if j < n {
                    assert(keys.drop_last()[j] == k);
                }
            }
            if keys.drop_last().contains(k) {
                let j = choose|j: int| 0 <= j < n && keys.drop_last()[j] == k;
                assert(keys[j] == k);
            }
            if keys.last() == k {
                assert(keys[n] == k);
            }
        }
    }
}

proof fn lemma_absent(loaded: Seq<PaymentView>, s: Seq<DropItem>)
    ensures
        forall|k: PaymentView|
            #[trigger] absent_keys(loaded, s).contains(k) <==> (loaded.contains(k) && !pool_has_key(
                s,
                k,
            )),
    decreases loaded.len(),
{
    if loaded.len() > 0 {
        let d = loaded.drop_last();
        let n = d.len() as int;
        lemma_absent(d, s);
        assert forall|k: PaymentView| #[trigger] loaded.contains(k) <==> (d.contains(k)
            || loaded.last() == k) by {
            if loaded.contains(k) {
                let j = choose|j: int| 0 <= j < loaded.len() && loaded[j] == k;
                if j < n {
                    assert(d[j] == k);
                }
            }
            if d.contains(k) {
                let j = choose|j: int| 0 <= j < n && d[j] == k;
                assert(loaded[j] == k);
            }
            if loaded.last() == k {
                assert(loaded[n] == k);
            }
        }
        let a = absent_keys(d, s);
        if !pool_has_key(s, loaded.last()) {
            assert forall|k: PaymentView| #[trigger] a.push(loaded.last()).contains(k) <==> (
            a.contains(k) || loaded.last() == k) by {
                if a.push(loaded.last()).contains(k) {
                    let j = choose|j: int|
                        0 <= j < a.len() + 1 && a.push(loaded.last())[j] == k;
                    if j < a.len() {
                        assert(a[j] == k);
                    }
                }
                if a.contains(k) {
                    let j = choose|j: int| 0 <= j < a.len() && a[j] == k;
                    assert(a.push(loaded.last())[j] == k);
                }
                if loaded.last() == k {
                    assert(a.push(loaded.last())[a.len() as int] == k);
                }
            }
        }
    }
}

/// Committing a pool brings the store's mapping to exactly the pool: applied
/// to the mapping that the session was loaded from, the commit's writes leave
/// each remaining descriptor with its units left and delete every descriptor
/// that ran out. A session that drew nothing leaves the mapping as it was.
pub proof fn commit_brings_store_to_pool(
    m: Map<PaymentView, nat>,
    ws: Seq<StoreWrite>,
    s: Seq<DropItem>,
    loaded: Seq<PaymentView>,
)
    requires
        forall|k: PaymentView| #[trigger] m.contains_key(k) <==> loaded.contains(k),
        forall|k: PaymentView| pool_has_key(s, k) ==> loaded.contains(k),
        is_commit_of(ws, s, loaded),
    ensures
        apply_writes(m, ws) == pool_map(s),
        pool_map(s) == m ==> apply_writes(m, ws) == m,
{
    let n = s.len() as int;
    let dels = absent_keys(loaded, s);
    let ups = ws.take(n);
    let dw = ws.subrange(n, ws.len() as int);
    assert(ws =~= ups + dw);
    lemma_apply_append(m, ups, dw);
    lemma_upserts_prefix(m, ws, s, n);
    assert(s.take(n) =~= s);
    let m2 = m.union_prefer_right(pool_map(s));
    assert forall|j: int| 0 <= j < dw.len() implies deletes(#[trigger] dw[j], dels[j]) by {
        assert(dw[j] == ws[n + j]);
    }
    lemma_deletes(m2, dw, dels);
    lemma_absent(loaded, s);
    let r = apply_writes(m2, dw);
    assert forall|k: PaymentView| #[trigger] r.contains_key(k) <==> pool_map(s).contains_key(k) by {
        lemma_map_has(s, k);
    }
    assert forall|k: PaymentView| #[trigger] r.contains_key(k) implies r[k] == pool_map(s)[k] by {
        lemma_map_has(s, k);
    }
    assert(r =~= pool_map(s));
}

proof fn lemma_unique_remove(s: Seq<DropItem>, i: int)
    requires
        keys_unique(s),
        0 <= i < s.len(),
    ensures
        keys_unique(s.remove(i)),
        forall|k: PaymentView| pool_has_key(s.remove(i), k) ==> pool_has_key(s, k),
{
    let r = s.remove(i);
    assert forall|a: int, b: int| 0 <= a < b < r.len() implies #[trigger] r[a].drop_content@
        != #[trigger] r[b].drop_content@ by {
        let a2 = if a < i { a } else { a + 1 };
        let b2 = if b < i { b } else { b + 1 };
        assert(r[a] == s[a2] && r[b] == s[b2]);
    }
    assert forall|k: PaymentView| pool_has_key(r, k) implies pool_has_key(s, k) by {
        let a = choose|a: int| 0 <= a < r.len() && #[trigger] r[a].drop_content@ == k;
        let a2 = if a < i { a } else { a + 1 };
        assert(r[a] == s[a2]);
    }
}

proof fn lemma_map_value(s: Seq<DropItem>, i: int)
    requires
        keys_unique(s),
        0 <= i < s.len(),
    ensures
        pool_map(s).contains_key(s[i].drop_content@),
        pool_map(s)[s[i].drop_content@] == s[i].amount_left as nat,
    decreases s.len(),
{
    if i < s.len() - 1 {
        let d = s.drop_last();
        assert(d[i] == s[i]);
        assert(s[i].drop_content@ != s[s.len() - 1].drop_content@);
        lemma_map_value(d, i);
    }
}

proof fn lemma_map_remove(s: Seq<DropItem>, i: int)
    requires
        keys_unique(s),
        0 <= i < s.len(),
    ensures
        pool_map(s.remove(i)) == pool_map(s).remove(s[i].drop_content@),
    decreases s.len(),
{
    let d = s.drop_last();
    let n = s.len() - 1;
    if i == n {
        assert(s.remove(i) =~= d);
        lemma_map_has(d, s[i].drop_content@);
        if pool_has_key(d, s[i].drop_content@) {
            let j = choose|j: int| 0 <= j < d.len() && #[trigger] d[j].drop_content@ == s[i].drop_content@;
            assert(s[j] == d[j]);
        }
        assert(pool_map(s).remove(s[i].drop_content@) =~= pool_map(d));
    } else {
        lemma_unique_remove(s, n);
        assert(s.remove(n) =~= d);
        assert(d[i] == s[i]);
        lemma_map_remove(d, i);
        assert(s.remove(i).drop_last() =~= d.remove(i));
        assert(s.remove(i).last() == s.last());
        assert(s[i].drop_content@ != s[n].drop_content@);
        assert(pool_map(s.remove(i)) =~= pool_map(s).remove(s[i].drop_content@));
    }
}

proof fn lemma_sum_same_map(s1: Seq<DropItem>, s2: Seq<DropItem>)
    requires
        keys_unique(s1),
        keys_unique(s2),
        pool_map(s1) == pool_map(s2),
    ensures
        pool_sum(s1) == pool_sum(s2),
    decreases s1.len(),
{
    if s1.len() == 0 {
        if s2.len() > 0 {
            lemma_map_value(s2, 0);
        }
    } else {
        let n = s1.len() - 1;
        let k = s1[n].drop_content@;
        lemma_map_value(s1, n);
        lemma_map_has(s2, k);
        let j = choose|j: int| 0 <= j < s2.len() && #[trigger] s2[j].drop_content@ == k;
        lemma_map_value(s2, j);
        lemma_map_remove(s1, n);
        lemma_map_remove(s2, j);
        lemma_unique_remove(s1, n);
        lemma_unique_remove(s2, j);
        lemma_sum_remove(s1, n);
        lemma_sum_remove(s2, j);
        assert(s1.remove(n) =~= s1.drop_last());
        lemma_sum_same_map(s1.remove(n), s2.remove(j));
    }
}

/// Opening a new session right after a commit, with no draws in between,
/// reproduces the committed pool: whatever order the store hands its entries
/// back in, they hold the same units per descriptor and the same total, which
/// is the new session's counter.
pub proof fn rehydration_reproduces_pool(
    m: Map<PaymentView, nat>,
    ws: Seq<StoreWrite>,
    s: Seq<DropItem>,
    loaded: Seq<PaymentView>,
    reloaded: Seq<DropItem>,
)
    requires
        forall|k: PaymentView| #[trigger] m.contains_key(k) <==> loaded.contains(k),
        forall|k: PaymentView| pool_has_key(s, k) ==> loaded.contains(k),
        is_commit_of(ws, s, loaded),
        pool_wf(s),
        pool_wf(reloaded),
        pool_map(reloaded) == apply_writes(m, ws),
    ensures
        pool_map(reloaded) == pool_map(s),
        pool_sum(reloaded) == pool_sum(s),
{
    commit_brings_store_to_pool(m, ws, s, loaded);
    lemma_sum_same_map(reloaded, s);
}

/// Once a session has drawn every guaranteed unit, its guaranteed pool is
/// empty; the counter is then zero, which a further draw does not admit.
pub proof fn guaranteed_pool_exhausted<R: EntropySource>(session: &StorageCache<R>)
    requires
        session.wf(),
        session.remaining_guaranteed_drops == 0,
    ensures
        session.remaining_guaranteed_set@.len() == 0,
{
    lemma_empty_when_sum_zero(session.remaining_guaranteed_set@);
}

/// Once a session has drawn every chance unit, its chance pool is empty.
pub proof fn chance_pool_exhausted<R: EntropySource>(session: &StorageCache<R>)
    requires
        session.wf(),
        session.remaining_chance_drops == 0,
    ensures
        session.remaining_chance_set@.len() == 0,
{
    lemma_empty_when_sum_zero(session.remaining_chance_set@);
}

} // verus!
