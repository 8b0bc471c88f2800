use vstd::prelude::*;

use crate::inventory::{
    absorb, amount_of_item, amount_of_kind, filled, merged, placed, settle, stacks_of, total, Inventory, Slot,
};
use crate::item::BoxedItem;
use crate::stack::BoxedItemStack;

verus! {

/// Merging nothing changes no slot and leaves nothing over.
proof fn lemma_merge_nothing(s: Seq<Slot>, item: BoxedItem)
    ensures
        merged(s, item, 0) == (s, 0nat),
    decreases s.len(),
{
    if s.len() > 0 {
        lemma_merge_nothing(s.drop_last(), item);
        assert(s.drop_last().push(s.last()) =~= s);
    }
}

/// Adding a stack of amount zero changes nothing and succeeds: the merge
/// and the placement leave every slot as it was and have nothing left over,
/// which `add` answers with `Ok` and an unchanged inventory.
pub proof fn law_add_zero_is_noop(inv: Inventory, item: BoxedItem)
    requires
        inv.wf(),
    ensures
        merged(inv.all_slots(), item, 0) == (inv.all_slots(), 0nat),
        placed(inv.all_slots(), inv.numbered_view().len() as int, item, 0) == (inv.all_slots(), 0nat),
{
    let s = inv.all_slots();
    let n = inv.numbered_view().len() as int;
    lemma_merge_nothing(s, item);
    lemma_filled_nothing(s.take(n), item);
    assert(s.take(n) + s.skip(n) =~= s);
}

proof fn lemma_amount_is_total(s: Seq<Slot>, kind: u64)
    ensures
        amount_of_kind(s, kind) == total(stacks_of(s, kind)),
    decreases s.len(),
{
    if s.len() > 0 {
        lemma_amount_is_total(s.drop_last(), kind);
        let rest = stacks_of(s.drop_last(), kind);
        match s.last() {
            Slot::Occupied(stack) => if stack.item.kind == kind {
                assert(rest.push(stack).drop_last() =~= rest);
            },
            Slot::Empty => {},
        }
    }
}

/// The amount that `count` returns for a kind is the sum of the amounts of
/// the stacks that `items` lists for it, in every state of an inventory.
pub proof fn law_count_is_sum_of_items(inv: Inventory, kind: u64)
    requires
        inv.wf(),
    ensures
        inv.count_spec(kind) == total(stacks_of(inv.all_slots(), kind)),
{
    lemma_amount_is_total(inv.all_slots(), kind);
}

/// A merge never touches a slot that does not hold an item equal to the one
/// added: values of one type that differ are never merged together.
pub proof fn law_merge_keeps_unequal(s: Seq<Slot>, item: BoxedItem, left: nat, i: int)
    requires
        0 <= i < s.len(),
        !s[i].holds_item(item),
    ensures
        merged(s, item, left).0.len() == s.len(),
        merged(s, item, left).0[i] == s[i],
    decreases s.len(),
{
    crate::inventory::lemma_merged_len(s.drop_last(), item, left);
    if i < s.len() - 1 {
        law_merge_keeps_unequal(s.drop_last(), item, left, i);
    } else {
        let rest = merged(s.drop_last(), item, left).1;
        assert(absorb(s.last(), item, rest).0 == s.last());
    }
}

/// Stacks of `item` that are at their bound take nothing more: when every
/// equal stack is full, a merge leaves the slots as they were and all that
/// was added still has to be placed elsewhere.
pub proof fn law_full_stacks_absorb_nothing(s: Seq<Slot>, item: BoxedItem, left: nat)
    requires
        forall|j: int| 0 <= j < s.len() && (#[trigger] s[j]).holds_item(item)
            ==> (s[j] matches Slot::Occupied(stack) && stack.amount >= stack.item.max_in_stack),
    ensures
        merged(s, item, left) == (s, left),
    decreases s.len(),
{
    if s.len() > 0 {
        assert forall|j: int| 0 <= j < s.drop_last().len() && (#[trigger] s.drop_last()[j]).holds_item(item)
            implies (s.drop_last()[j] matches Slot::Occupied(stack) && stack.amount >= stack.item.max_in_stack) by {
            assert(s.drop_last()[j] == s[j]);
        }
        law_full_stacks_absorb_nothing(s.drop_last(), item, left);
        assert(s.drop_last().push(s.last()) =~= s);
        assert(s.last() == s[s.len() - 1]);
    }
}

/// One more unit of `item` goes onto the one stack of an equal item when that
/// stack is below its bound, and nothing is left to place.
pub proof fn law_one_unit_tops_up(s: Seq<Slot>, item: BoxedItem, i: int)
    requires
        0 <= i < s.len(),
        s[i] matches Slot::Occupied(stack) && stack.item.same_as(item) && stack.amount < stack.item.max_in_stack,
        forall|j: int| 0 <= j < s.len() && j != i ==> !(#[trigger] s[j]).holds_item(item),
    ensures
        ({
            let stack = s[i]->Occupied_0;
            merged(s, item, 1) == (
                s.update(i, Slot::Occupied(BoxedItemStack { item: stack.item, amount: (stack.amount + 1) as usize })),
                0nat,
            )
        }),
    decreases s.len(),
{
    let stack = s[i]->Occupied_0;
    let grown = Slot::Occupied(BoxedItemStack { item: stack.item, amount: (stack.amount + 1) as usize });
    let d = s.drop_last();
    if i < s.len() - 1 {
        assert forall|j: int| 0 <= j < d.len() && j != i implies !(#[trigger] d[j]).holds_item(item) by {
            assert(d[j] == s[j]);
        }
        law_one_unit_tops_up(d, item, i);
        assert(!s[s.len() - 1].holds_item(item));
        assert(d.update(i, grown).push(s.last()) =~= s.update(i, grown));
    } else {
        assert forall|j: int| 0 <= j < d.len() && (#[trigger] d[j]).holds_item(item)
            implies (d[j] matches Slot::Occupied(st) && st.amount >= st.item.max_in_stack) by {
            assert(d[j] == s[j]);
        }
        law_full_stacks_absorb_nothing(d, item, 1);
        assert(d.push(grown) =~= s.update(i, grown));
    }
}

/// A merge loses and creates nothing: what the slots hold of `item` after it,
/// plus what is still left to place, is what they held before plus what was
/// added. So a failed `add` hands back exactly what it could not merge.
pub proof fn law_merge_conserves(s: Seq<Slot>, item: BoxedItem, left: nat)
    ensures
        amount_of_item(merged(s, item, left).0, item) + merged(s, item, left).1 == amount_of_item(s, item) + left,
    decreases s.len(),
{
    if s.len() > 0 {
        law_merge_conserves(s.drop_last(), item, left);
        let (front, rest) = merged(s.drop_last(), item, left);
        let (slot, rest2) = absorb(s.last(), item, rest);
        assert(front.push(slot).drop_last() =~= front);
    }
}

/// A merge never lifts a stack of `item` above its bound: every slot that
/// held at most its bound before still does.
pub proof fn law_merge_respects_bound(s: Seq<Slot>, item: BoxedItem, left: nat, i: int)
    requires
        0 <= i < s.len(),
        s[i] matches Slot::Occupied(stack) && stack.amount <= stack.item.max_in_stack,
    ensures
        merged(s, item, left).0.len() == s.len(),
        merged(s, item, left).0[i] matches Slot::Occupied(stack) && stack.amount <= stack.item.max_in_stack,
    decreases s.len(),
{
    crate::inventory::lemma_merged_len(s.drop_last(), item, left);
    if i < s.len() - 1 {
        law_merge_respects_bound(s.drop_last(), item, left, i);
    }
}

/// A merge never leaves an occupied slot holding nothing: where every stack
/// held at least one unit before, every stack still does after. (What `add`
/// places afterwards it places only when some amount is left.)
pub proof fn law_merge_keeps_stacks_nonempty(s: Seq<Slot>, item: BoxedItem, left: nat)
    requires
        forall|j: int| 0 <= j < s.len() ==> (#[trigger] s[j] matches Slot::Occupied(stack) ==> stack.amount > 0),
    ensures
        forall|j: int| 0 <= j < s.len() ==> (#[trigger] merged(s, item, left).0[j] matches Slot::Occupied(stack)
            ==> stack.amount > 0),
    decreases s.len(),
{
    crate::inventory::lemma_merged_len(s, item, left);
    if s.len() > 0 {
        let d = s.drop_last();
        assert forall|j: int| 0 <= j < d.len() implies (#[trigger] d[j] matches Slot::Occupied(stack) ==> stack.amount > 0) by {
            assert(d[j] == s[j]);
        }
        law_merge_keeps_stacks_nonempty(d, item, left);
        crate::inventory::lemma_merged_len(d, item, left);
        assert(s.last() == s[s.len() - 1]);
    }
}

proof fn lemma_filled_concat(p: Seq<Slot>, q: Seq<Slot>, item: BoxedItem, left: nat)
    ensures
        ({
            let (a, l1) = filled(p, item, left);
            let (b, l2) = filled(q, item, l1);
            filled(p + q, item, left) == (a + b, l2)
        }),
    decreases q.len(),
{
    if q.len() == 0 {
        assert(p + q =~= p);
        assert(filled(p, item, left).0 + q =~= filled(p, item, left).0);
    } else {
        assert((p + q).drop_last() =~= p + q.drop_last());
        assert((p + q).last() == q.last());
        lemma_filled_concat(p, q.drop_last(), item, left);
        let (a, l1) = filled(p, item, left);
        let (b, l2) = filled(q.drop_last(), item, l1);
        let (x, l3) = settle(q.last(), item, l2);
        assert((a + b).push(x) =~= a + b.push(x));
    }
}

proof fn lemma_filled_no_empty(p: Seq<Slot>, item: BoxedItem, left: nat)
    requires
        forall|j: int| 0 <= j < p.len() ==> !(#[trigger] p[j] is Empty),
    ensures
        filled(p, item, left) == (p, left),
    decreases p.len(),
{
    if p.len() > 0 {
        assert(p.last() == p[p.len() - 1]);
        assert forall|j: int| 0 <= j < p.drop_last().len() implies !(#[trigger] p.drop_last()[j] is Empty) by {
            assert(p.drop_last()[j] == p[j]);
        }
        lemma_filled_no_empty(p.drop_last(), item, left);
        assert(p.drop_last().push(p.last()) =~= p);
    }
}

proof fn lemma_filled_nothing(p: Seq<Slot>, item: BoxedItem)
    ensures
        filled(p, item, 0) == (p, 0nat),
    decreases p.len(),
{
    if p.len() > 0 {
        lemma_filled_nothing(p.drop_last(), item);
        assert(p.drop_last().push(p.last()) =~= p);
    }
}

proof fn lemma_filled_one_empty(item: BoxedItem, left: nat)
    ensures
        ({
            let taken: nat = if left < item.max_in_stack { left } else { item.max_in_stack as nat };
            taken > 0 ==> filled(seq![Slot::Empty], item, left) == (
                seq![Slot::Occupied(BoxedItemStack { item, amount: taken as usize })],
                (left - taken) as nat,
            )
        }),
{
    let one = seq![Slot::Empty];
    assert(one.drop_last() =~= Seq::<Slot>::empty());
    assert(one.last() == Slot::Empty);
    assert(filled(Seq::<Slot>::empty(), item, left) == (Seq::<Slot>::empty(), left));
    let taken: nat = if left < item.max_in_stack { left } else { item.max_in_stack as nat };
    assert(Seq::<Slot>::empty().push(Slot::Occupied(BoxedItemStack { item, amount: taken as usize }))
        =~= seq![Slot::Occupied(BoxedItemStack { item, amount: taken as usize })]);
}

/// One `add` of `max + k` units of an item that no stack holds yet, with
/// `1 <= k <= max` for the item's bound `max`: nothing merges, the first
/// empty numbered slot `e1` gets `max` units and the next one, `e2`, gets
/// `k`, and nothing is left over, so `add` succeeds with those two stacks.
#[verifier::rlimit(50)]
pub proof fn law_over_bound_fills_two_slots(s: Seq<Slot>, n: int, item: BoxedItem, k: nat, e1: int, e2: int)
    requires
        0 <= e1 < e2 < n <= s.len(),
        1 <= k <= item.max_in_stack,
        forall|j: int| 0 <= j < s.len() ==> !(#[trigger] s[j]).holds_item(item),
        s[e1] is Empty,
        s[e2] is Empty,
        forall|j: int| 0 <= j < e2 && j != e1 ==> !(#[trigger] s[j] is Empty),
    ensures
        merged(s, item, (item.max_in_stack + k) as nat) == (s, (item.max_in_stack + k) as nat),
        placed(s, n, item, (item.max_in_stack + k) as nat) == (
            s.update(e1, Slot::Occupied(BoxedItemStack { item, amount: item.max_in_stack }))
                .update(e2, Slot::Occupied(BoxedItemStack { item, amount: k as usize })),
            0nat,
        ),
{
    let m = item.max_in_stack;
    let total: nat = (m + k) as nat;
    law_full_stacks_absorb_nothing(s, item, total);
    let t = s.take(n);
    let a = t.subrange(0, e1);
    let b = t.subrange(e1 + 1, e2);
    let c = t.subrange(e2 + 1, n);
    let full = Slot::Occupied(BoxedItemStack { item, amount: m });
    let part = Slot::Occupied(BoxedItemStack { item, amount: k as usize });
    assert(t =~= a + seq![Slot::Empty] + b + seq![Slot::Empty] + c);
    assert(t.len() == n);
    assert forall|j: int| 0 <= j < a.len() implies !(#[trigger] a[j] is Empty) by {
        assert(a[j] == s[j]);
    }
    assert forall|j: int| 0 <= j < b.len() implies !(#[trigger] b[j] is Empty) by {
        assert(b[j] == s[e1 + 1 + j]);
    }
    let e = seq![Slot::Empty];
    lemma_filled_no_empty(a, item, total);
    lemma_filled_one_empty(item, total);
    assert(filled(e, item, total) == (seq![full], k));
    lemma_filled_concat(a, e, item, total);
    assert(filled(a + e, item, total) == (a + seq![full], k));
    lemma_filled_no_empty(b, item, k);
    lemma_filled_concat(a + e, b, item, total);
    assert(filled(a + e + b, item, total) == (a + seq![full] + b, k));
    lemma_filled_one_empty(item, k);
    assert(filled(e, item, k) == (seq![part], 0nat));
    lemma_filled_concat(a + e + b, e, item, total);
    assert(filled(a + e + b + e, item, total) == (a + seq![full] + b + seq![part], 0nat));
    lemma_filled_nothing(c, item);
    lemma_filled_concat(a + e + b + e, c, item, total);
    assert(filled(a + e + b + e + c, item, total) == (a + seq![full] + b + seq![part] + c, 0nat));
    assert(a + seq![full] + b + seq![part] + c + s.skip(n) =~= s.update(e1, full).update(e2, part));
}

/// One `add` of `max + k` units of an item that no stack holds yet, with
/// `k >= 1`, when only one numbered slot `e1` is empty: nothing merges, `e1`
/// gets `max` units, and `k` units are left, which `add` hands back in
/// `NotEnoughSpace` while keeping the placed stack.
pub proof fn law_over_bound_without_room(s: Seq<Slot>, n: int, item: BoxedItem, k: nat, e1: int)
    requires
        0 <= e1 < n <= s.len(),
        1 <= k,
        1 <= item.max_in_stack,
        forall|j: int| 0 <= j < s.len() ==> !(#[trigger] s[j]).holds_item(item),
        s[e1] is Empty,
        forall|j: int| 0 <= j < n && j != e1 ==> !(#[trigger] s[j] is Empty),
    ensures
        merged(s, item, (item.max_in_stack + k) as nat) == (s, (item.max_in_stack + k) as nat),
        placed(s, n, item, (item.max_in_stack + k) as nat) == (
            s.update(e1, Slot::Occupied(BoxedItemStack { item, amount: item.max_in_stack })),
            k,
        ),
{
    let m = item.max_in_stack;
    let total: nat = (m + k) as nat;
    law_full_stacks_absorb_nothing(s, item, total);
    let t = s.take(n);
    let a = t.subrange(0, e1);
    let b = t.subrange(e1 + 1, n);
    let full = Slot::Occupied(BoxedItemStack { item, amount: m });
    assert(t =~= a + seq![Slot::Empty] + b);
    assert forall|j: int| 0 <= j < a.len() implies !(#[trigger] a[j] is Empty) by {
        assert(a[j] == s[j]);
    }
    assert forall|j: int| 0 <= j < b.len() implies !(#[trigger] b[j] is Empty) by {
        assert(b[j] == s[e1 + 1 + j]);
    }
    let e = seq![Slot::Empty];
    lemma_filled_no_empty(a, item, total);
    lemma_filled_one_empty(item, total);
    assert(filled(e, item, total) == (seq![full], k));
    lemma_filled_concat(a, e, item, total);
    assert(filled(a + e, item, total) == (a + seq![full], k));
    lemma_filled_no_empty(b, item, k);
    lemma_filled_concat(a + e, b, item, total);
    assert(filled(a + e + b, item, total) == (a + seq![full] + b, k));
    assert(a + seq![full] + b + s.skip(n) =~= s.update(e1, full));
}

} // verus!
