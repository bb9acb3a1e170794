use vstd::prelude::*;
use crate::payment::{Payment, PaymentView};

verus! {

/// One entry of a pool: a descriptor and how many units of it are left.
#[derive(Clone, Debug)]
pub struct DropItem {
    pub drop_content: Payment,
    pub amount_left: usize,
}

impl DropItem {
    pub fn new(drop_content: Payment, amount_left: usize) -> (r: DropItem)
        ensures
            r.drop_content == drop_content,
            r.amount_left == amount_left,
    {
        DropItem { drop_content, amount_left }
    }
}

impl PartialEq for DropItem {
    fn eq(&self, other: &DropItem) -> (r: bool) {
        self.amount_left == other.amount_left && self.drop_content.same_as(&other.drop_content)
    }
}

impl vstd::std_specs::cmp::PartialEqSpecImpl for DropItem {
    open spec fn obeys_eq_spec() -> bool {
        true
    }

    open spec fn eq_spec(&self, other: &DropItem) -> bool {
        self.drop_content@ == other.drop_content@ && self.amount_left == other.amount_left
    }
}

/// Total number of units left in a pool.
pub open spec fn pool_sum(s: Seq<DropItem>) -> nat
    decreases s.len(),
{
    if s.len() == 0 {
        0
    } else {
        pool_sum(s.drop_last()) + s.last().amount_left as nat
    }
}

/// No descriptor occurs twice in the pool.
pub open spec fn keys_unique(s: Seq<DropItem>) -> bool {
    forall|i: int, j: int|
        0 <= i < j < s.len() ==> #[trigger] s[i].drop_content@ != #[trigger] s[j].drop_content@
}

/// Every entry still has at least one unit left.
pub open spec fn all_positive(s: Seq<DropItem>) -> bool {
    forall|i: int| 0 <= i < s.len() ==> #[trigger] s[i].amount_left > 0
}

/// A live pool: distinct descriptors, none of them exhausted.
pub open spec fn pool_wf(s: Seq<DropItem>) -> bool {
    keys_unique(s) && all_positive(s)
}

/// The pool as a mapping from descriptor to units left.
pub open spec fn pool_map(s: Seq<DropItem>) -> Map<PaymentView, nat>
    decreases s.len(),
{
    if s.len() == 0 {
        Map::empty()
    } else {
        pool_map(s.drop_last()).insert(s.last().drop_content@, s.last().amount_left as nat)
    }
}

/// Whether some entry of the pool has descriptor `k`.
pub open spec fn pool_has_key(s: Seq<DropItem>, k: PaymentView) -> bool {
    exists|i: int| 0 <= i < s.len() && #[trigger] s[i].drop_content@ == k
}

/// The scan rule from index `i` on: the first index whose running sum
/// (units of entries `0..=index`) reaches `pos`, or the length if none does.
pub open spec fn pick_from(s: Seq<DropItem>, pos: nat, i: int) -> int
    decreases s.len() - i,
{
    if i < 0 || i >= s.len() {
        s.len() as int
    } else if pool_sum(s.take(i + 1)) >= pos {
        i
    } else {
        pick_from(s, pos, i + 1)
    }
}

/// The index that a draw at position `pos` selects.
pub open spec fn pick(s: Seq<DropItem>, pos: nat) -> int {
    pick_from(s, pos, 0)
}

/// The pool after one unit of entry `i` is taken: the entry is removed and,
/// if units remain, appended again with one unit fewer.
pub open spec fn after_take(s: Seq<DropItem>, i: int) -> Seq<DropItem> {
    if s[i].amount_left > 1 {
        s.remove(i).push(
            (DropItem { drop_content: s[i].drop_content, amount_left: (s[i].amount_left - 1) as usize }),
        )
    } else {
        s.remove(i)
    }
}

pub proof fn lemma_sum_take_step(s: Seq<DropItem>, i: int)
    requires
        0 <= i < s.len(),
    ensures
        pool_sum(s.take(i + 1)) == pool_sum(s.take(i)) + s[i].amount_left,
{
    assert(s.take(i + 1).drop_last() =~= s.take(i));
}

pub proof fn lemma_sum_take_le(s: Seq<DropItem>, i: int)
    requires
        0 <= i <= s.len(),
    ensures
        pool_sum(s.take(i)) <= pool_sum(s),
    decreases s.len() - i,
{
    if i == s.len() {
        assert(s.take(i) =~= s);
    } else {
        lemma_sum_take_step(s, i);
        lemma_sum_take_le(s, i + 1);
    }
}

pub proof fn lemma_sum_remove(s: Seq<DropItem>, i: int)
    requires
        0 <= i < s.len(),
    ensures
        pool_sum(s.remove(i)) + s[i].amount_left == pool_sum(s),
    decreases s.len(),
{
    if i == s.len() - 1 {
        assert(s.remove(i) =~= s.drop_last());
    } else {
        lemma_sum_remove(s.drop_last(), i);
        assert(s.remove(i).drop_last() =~= s.drop_last().remove(i));
        assert(s.remove(i).last() == s.last());
    }
}

pub proof fn lemma_sum_push(s: Seq<DropItem>, d: DropItem)
    ensures
        pool_sum(s.push(d)) == pool_sum(s) + d.amount_left,
{
    assert(s.push(d).drop_last() =~= s);
}

/// A live pool with no units left has no entries.
pub proof fn lemma_empty_when_sum_zero(s: Seq<DropItem>)
    requires
        all_positive(s),
        pool_sum(s) == 0,
    ensures
        s.len() == 0,
{
    if s.len() > 0 {
        assert(s.last().amount_left > 0);
        assert(s.drop_last().len() >= 0);
    }
}

pub proof fn lemma_pick_in_range(s: Seq<DropItem>, pos: nat, i: int)
    requires
        0 <= i < s.len(),
        pos <= pool_sum(s),
    ensures
        i <= pick_from(s, pos, i) < s.len(),
    decreases s.len() - i,
{
    if i == s.len() - 1 {
        assert(s.take(i + 1) =~= s);
    } else if pool_sum(s.take(i + 1)) < pos {
        lemma_pick_in_range(s, pos, i + 1);
    }
}

/// Taking one unit removes exactly one unit from the pool's total.
pub proof fn lemma_sum_after_take(s: Seq<DropItem>, i: int)
    requires
        0 <= i < s.len(),
        s[i].amount_left > 0,
    ensures
        pool_sum(after_take(s, i)) + 1 == pool_sum(s),
{
    lemma_sum_remove(s, i);
    if s[i].amount_left > 1 {
        lemma_sum_push(
            s.remove(i),
            DropItem { drop_content: s[i].drop_content, amount_left: (s[i].amount_left - 1) as usize },
        );
    }
}

/// Taking one unit keeps the pool live.
pub proof fn lemma_wf_after_take(s: Seq<DropItem>, i: int)
    requires
        pool_wf(s),
        0 <= i < s.len(),
    ensures
        pool_wf(after_take(s, i)),
        forall|k: PaymentView| pool_has_key(after_take(s, i), k) ==> pool_has_key(s, k),
{
    let r = s.remove(i);
    assert forall|a: int, b: int| 0 <= a < b < r.len() implies #[trigger] r[a].drop_content@
        != #[trigger] r[b].drop_content@ by {
        let a2 = if a < i { a } else { a + 1 };
        let b2 = if b < i { b } else { b + 1 };
        assert(r[a] == s[a2] && r[b] == s[b2]);
    }
    assert forall|a: int| 0 <= a < r.len() implies #[trigger] r[a].amount_left > 0 by {
        let a2 = if a < i { a } else { a + 1 };
        assert(r[a] == s[a2]);
    }
    assert forall|k: PaymentView| pool_has_key(r, k) implies pool_has_key(s, k) by {
        let a = choose|a: int| 0 <= a < r.len() && #[trigger] r[a].drop_content@ == k;
        let a2 = if a < i { a } else { a + 1 };
        assert(r[a] == s[a2]);
    }
    if s[i].amount_left > 1 {
        let d = DropItem { drop_content: s[i].drop_content, amount_left: (s[i].amount_left - 1) as usize };
        let t = r.push(d);
        assert forall|a: int, b: int| 0 <= a < b < t.len() implies #[trigger] t[a].drop_content@
            != #[trigger] t[b].drop_content@ by {
            if b == r.len() {
                let a2 = if a < i { a } else { a + 1 };
                assert(t[a] == s[a2]);
            } else {
                assert(t[a] == r[a] && t[b] == r[b]);
            }
        }
        assert forall|a: int| 0 <= a < t.len() implies #[trigger] t[a].amount_left > 0 by {
            if a < r.len() {
                assert(t[a] == r[a]);
            }
        }
        assert forall|k: PaymentView| pool_has_key(t, k) implies pool_has_key(s, k) by {
            let a = choose|a: int| 0 <= a < t.len() && #[trigger] t[a].drop_content@ == k;
            if a == r.len() {
                assert(s[i].drop_content@ == k);
            } else {
                assert(t[a] == r[a]);
                assert(pool_has_key(r, k));
            }
        }
    }
}

/// Units left over the whole pool.
pub fn get_full_set_len(set: &Vec<DropItem>) -> (size: usize)
    requires
        pool_sum(set@) <= usize::MAX,
    ensures
        size == pool_sum(set@),
{
    let mut size: usize = 0;
    let mut i: usize = 0;
    while i < set.len()
        invariant
            i <= set.len(),
            pool_sum(set@) <= usize::MAX,
            size == pool_sum(set@.take(i as int)),
        decreases set.len() - i,
    {
        proof {
            lemma_sum_take_step(set@, i as int);
            lemma_sum_take_le(set@, i + 1);
        }
        size = size + set[i].amount_left;
        i = i + 1;
    }
    assert(set@.take(set.len() as int) =~= set@);
    size
}

/// The scan rule: the first index whose running sum reaches `pos`.
pub fn select_index(set: &Vec<DropItem>, pos: usize) -> (idx: usize)
    requires
        pos < pool_sum(set@),
        pool_sum(set@) <= usize::MAX,
    ensures
        idx == pick(set@, pos as nat),
        idx < set.len(),
{
    proof {
        lemma_pick_in_range(set@, pos as nat, 0);
    }
    let mut running: usize = 0;
    let mut idx: usize = 0;
    while idx < set.len()
        invariant
            idx <= set.len(),
            pool_sum(set@) <= usize::MAX,
            pos < pool_sum(set@),
            running == pool_sum(set@.take(idx as int)),
            pick(set@, pos as nat) == pick_from(set@, pos as nat, idx as int),
            0 <= pick(set@, pos as nat) < set.len(),
        decreases set.len() - idx,
    {
        proof {
            lemma_sum_take_step(set@, idx as int);
            lemma_sum_take_le(set@, idx + 1);
        }
        running = running + set[idx].amount_left;
        if running >= pos {
            return idx;
        }
        idx = idx + 1;
    }
    idx
}

/// Takes one unit of entry `idx` and returns its descriptor.
pub fn take_unit(set: &mut Vec<DropItem>, idx: usize) -> (r: Payment)
    requires
        idx < old(set).len(),
        old(set)@[idx as int].amount_left > 0,
    ensures
        r@ == old(set)@[idx as int].drop_content@,
        final(set)@ == after_take(old(set)@, idx as int),
{
    let mut item = set.remove(idx);
    let drop_content = item.drop_content.duplicate();
    item.amount_left = item.amount_left - 1;
    if item.amount_left > 0 {
        set.push(item);
    }
    drop_content
}

/// One weighted draw without replacement at position `pos` of the pool's units.
pub fn draw_at(set: &mut Vec<DropItem>, pos: usize) -> (r: Payment)
    requires
        pool_wf(old(set)@),
        pos < pool_sum(old(set)@),
        pool_sum(old(set)@) <= usize::MAX,
    ensures
        0 <= pick(old(set)@, pos as nat) < old(set)@.len(),
        r@ == old(set)@[pick(old(set)@, pos as nat)].drop_content@,
        final(set)@ == after_take(old(set)@, pick(old(set)@, pos as nat)),
        pool_wf(final(set)@),
        pool_sum(final(set)@) + 1 == pool_sum(old(set)@),
{
    let idx = select_index(set, pos);
    proof {
        lemma_wf_after_take(set@, idx as int);
        lemma_sum_after_take(set@, idx as int);
    }
    take_unit(set, idx)
}

} // verus!
