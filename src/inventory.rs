use vstd::prelude::*;

use crate::item::{BoxedItem, Item};
use crate::key::Key;
use crate::stack::BoxedItemStack;

verus! {

/// A storage cell: empty, or holding one stack.
#[derive(Debug, PartialEq, Eq, Structural, Clone, Copy)]
pub enum Slot {
    Empty,
    Occupied(BoxedItemStack),
}

impl Slot {
    pub open spec fn holds_kind(self, kind: u64) -> bool {
        match self {
            Slot::Occupied(stack) => stack.item.kind == kind,
            Slot::Empty => false,
        }
    }

    pub open spec fn holds_item(self, item: BoxedItem) -> bool {
        match self {
            Slot::Occupied(stack) => stack.item.same_as(item),
            Slot::Empty => false,
        }
    }

    /// The slot that holds `stack`: empty when the stack holds nothing.
    pub open spec fn holding(stack: BoxedItemStack) -> Slot {
        if stack.amount == 0 {
            Slot::Empty
        } else {
            Slot::Occupied(stack)
        }
    }

    pub fn of_stack(stack: BoxedItemStack) -> (r: Slot)
        ensures
            r == Slot::holding(stack),
    {
        if stack.amount == 0 {
            Slot::Empty
        } else {
            Slot::Occupied(stack)
        }
    }

    pub fn is_empty(&self) -> (r: bool)
        ensures
            r == (*self is Empty),
    {
        matches!(self, Slot::Empty)
    }

    pub fn contains_type(&self, kind: u64) -> (r: bool)
        ensures
            r == self.holds_kind(kind),
    {
        match self {
            Slot::Empty => false,
            Slot::Occupied(stack) => stack.is_type(kind),
        }
    }

    pub fn contains<T: Item>(&self) -> (r: bool)
        ensures
            r == self.holds_kind(T::spec_kind()),
    {
        match self {
            Slot::Empty => false,
            Slot::Occupied(stack) => stack.is::<T>(),
        }
    }
}

#[derive(Debug)]
pub enum InvError {
    NotEnoughSpace { left: BoxedItemStack },
    NoSuchSlot(Key),
}

/// The stacks held in `s`, in slot order, whose item is of the given kind.
pub open spec fn stacks_of(s: Seq<Slot>, kind: u64) -> Seq<BoxedItemStack>
    decreases s.len(),
{
    if s.len() == 0 {
        seq![]
    } else {
        let rest = stacks_of(s.drop_last(), kind);
        match s.last() {
            Slot::Occupied(stack) => if stack.item.kind == kind {
                rest.push(stack)
            } else {
                rest
            },
            Slot::Empty => rest,
        }
    }
}

/// Sum of the amounts of a sequence of stacks.
pub open spec fn total(s: Seq<BoxedItemStack>) -> nat
    decreases s.len(),
{
    if s.len() == 0 {
        0
    } else {
        total(s.drop_last()) + s.last().amount as nat
    }
}

/// Sum of the amounts held in `s` by stacks whose item is of the given kind.
pub open spec fn amount_of_kind(s: Seq<Slot>, kind: u64) -> nat
    decreases s.len(),
{
    if s.len() == 0 {
        0
    } else {
        amount_of_kind(s.drop_last(), kind) + match s.last() {
            Slot::Occupied(stack) => if stack.item.kind == kind {
                stack.amount as nat
            } else {
                0
            },
            Slot::Empty => 0,
        }
    }
}

/// Sum of the amounts held in `s` by stacks whose item equals `item`.
pub open spec fn amount_of_item(s: Seq<Slot>, item: BoxedItem) -> nat
    decreases s.len(),
{
    if s.len() == 0 {
        0
    } else {
        amount_of_item(s.drop_last(), item) + match s.last() {
            Slot::Occupied(stack) => if stack.item.same_as(item) {
                stack.amount as nat
            } else {
                0
            },
            Slot::Empty => 0,
        }
    }
}

/// How one slot absorbs up to `left` units of `item` when a stack is added:
/// only a stack of an equal item below its own bound takes any, and only as
/// many as fit. Gives the new slot and what is still left to place.
pub open spec fn absorb(slot: Slot, item: BoxedItem, left: nat) -> (Slot, nat) {
    match slot {
        Slot::Occupied(stack) => if stack.item.same_as(item) && stack.amount < stack.item.max_in_stack {
            let room = (stack.item.max_in_stack - stack.amount) as nat;
            let taken = if left < room { left } else { room };
            (
                Slot::Occupied(BoxedItemStack { item: stack.item, amount: (stack.amount + taken) as usize }),
                (left - taken) as nat,
            )
        } else {
            (slot, left)
        },
        Slot::Empty => (slot, left),
    }
}

/// The slots after `left` units of `item` were merged into `s` in slot order,
/// and the amount that no slot took.
pub open spec fn merged(s: Seq<Slot>, item: BoxedItem, left: nat) -> (Seq<Slot>, nat)
    decreases s.len(),
{
    if s.len() == 0 {
        (s, left)
    } else {
        let (front, rest) = merged(s.drop_last(), item, left);
        let (slot, rest2) = absorb(s.last(), item, rest);
        (front.push(slot), rest2)
    }
}

/// How one slot takes up to `left` units of `item` when what a merge left
/// over is placed: an empty slot takes as many as the item's bound allows.
pub open spec fn settle(slot: Slot, item: BoxedItem, left: nat) -> (Slot, nat) {
    let taken: nat = if left < item.max_in_stack { left } else { item.max_in_stack as nat };
    if slot is Empty && taken > 0 {
        (Slot::Occupied(BoxedItemStack { item, amount: taken as usize }), (left - taken) as nat)
    } else {
        (slot, left)
    }
}

/// The slots after `left` units of `item` were placed into the empty slots
/// of `s` in order, and the amount that found no room.
pub open spec fn filled(s: Seq<Slot>, item: BoxedItem, left: nat) -> (Seq<Slot>, nat)
    decreases s.len(),
{
    if s.len() == 0 {
        (s, left)
    } else {
        let (front, rest) = filled(s.drop_last(), item, left);
        let (slot, rest2) = settle(s.last(), item, rest);
        (front.push(slot), rest2)
    }
}

/// Placement restricted to the first `n` slots of `s` (the numbered ones).
pub open spec fn placed(s: Seq<Slot>, n: int, item: BoxedItem, left: nat) -> (Seq<Slot>, nat) {
    let (front, rest) = filled(s.take(n), item, left);
    (front + s.skip(n), rest)
}

/// A prefix never holds more than the whole.
pub proof fn lemma_amount_of_kind_prefix(s: Seq<Slot>, kind: u64, i: int)
    requires
        0 <= i <= s.len(),
    ensures
        amount_of_kind(s.take(i), kind) <= amount_of_kind(s, kind),
    decreases s.len(),
{
    if i < s.len() {
        assert(s.drop_last().take(i) =~= s.take(i));
        lemma_amount_of_kind_prefix(s.drop_last(), kind, i);
    } else {
        assert(s.take(i) =~= s);
    }
}

/// A prefix never holds more than the whole.
pub proof fn lemma_amount_of_item_prefix(s: Seq<Slot>, item: BoxedItem, i: int)
    requires
        0 <= i <= s.len(),
    ensures
        amount_of_item(s.take(i), item) <= amount_of_item(s, item),
    decreases s.len(),
{
    if i < s.len() {
        assert(s.drop_last().take(i) =~= s.take(i));
        lemma_amount_of_item_prefix(s.drop_last(), item, i);
    } else {
        assert(s.take(i) =~= s);
    }
}

pub proof fn lemma_merged_len(s: Seq<Slot>, item: BoxedItem, left: nat)
    ensures
        merged(s, item, left).0.len() == s.len(),
        merged(s, item, left).1 <= left,
    decreases s.len(),
{
    if s.len() > 0 {
        lemma_merged_len(s.drop_last(), item, left);
    }
}

pub proof fn lemma_filled_len(s: Seq<Slot>, item: BoxedItem, left: nat)
    ensures
        filled(s, item, left).0.len() == s.len(),
        filled(s, item, left).1 <= left,
    decreases s.len(),
{
    if s.len() > 0 {
        lemma_filled_len(s.drop_last(), item, left);
    }
}

/// Runs `settle` on one slot.
fn settle_slot(slot: &Slot, item: &BoxedItem, left: usize) -> (r: (Slot, usize))
    ensures
        (r.0, r.1 as nat) == settle(*slot, *item, left as nat),
{
    let taken = if left < item.max_in_stack {
        left
    } else {
        item.max_in_stack
    };
    if slot.is_empty() && taken > 0 {
        (Slot::Occupied(BoxedItemStack { item: *item, amount: taken }), left - taken)
    } else {
        (*slot, left)
    }
}

/// Runs `absorb` on one slot.
fn absorb_slot(slot: &Slot, item: &BoxedItem, left: usize) -> (r: (Slot, usize))
    ensures
        (r.0, r.1 as nat) == absorb(*slot, *item, left as nat),
{
    match slot {
        Slot::Occupied(stack) => if stack.item.dyn_eq(item) && stack.amount < stack.item.max_in_stack {
            let room = stack.item.max_in_stack - stack.amount;
            let taken = if left < room {
                left
            } else {
                room
            };
            (Slot::Occupied(BoxedItemStack { item: stack.item, amount: stack.amount + taken }), left - taken)
        } else {
            (*slot, left)
        },
        Slot::Empty => (*slot, left),
    }
}

/// An inventory: `slot_count` numbered slots and any number of custom slots,
/// each custom slot keyed by the id that the application registered it under.
#[derive(Debug)]
pub struct Inventory {
    slot_count: usize,
    numbered: Vec<Slot>,
    custom_ids: Vec<u64>,
    custom: Vec<Slot>,
}

impl Inventory {
    /// The numbered slots, by number.
    pub closed spec fn numbered_view(&self) -> Seq<Slot> {
        self.numbered@
    }

    /// The ids of the custom slots, in registration order.
    pub closed spec fn custom_ids_view(&self) -> Seq<u64> {
        self.custom_ids@
    }

    /// The custom slots, in the order of `custom_ids_view`.
    pub closed spec fn custom_view(&self) -> Seq<Slot> {
        self.custom@
    }

    pub closed spec fn spec_slot_count(&self) -> nat {
        self.slot_count as nat
    }

    pub open spec fn wf(&self) -> bool {
        &&& self.spec_slot_count() == self.numbered_view().len()
        &&& self.custom_ids_view().len() == self.custom_view().len()
        &&& self.custom_ids_view().no_duplicates()
        &&& self.numbered_view().len() + self.custom_view().len() <= usize::MAX
    }

    /// Every slot, in the order in which the inventory visits them:
    /// numbered slots by number, then custom slots in registration order.
    pub open spec fn all_slots(&self) -> Seq<Slot> {
        self.numbered_view() + self.custom_view()
    }

    /// The slot at `key`, if the key is provisioned.
    pub open spec fn lookup(&self, key: Key) -> Option<Slot> {
        match key {
            Key::Number(n) => if n < self.numbered_view().len() {
                Some(self.numbered_view()[n as int])
            } else {
                None
            },
            Key::Type(id) => if self.custom_ids_view().contains(id) {
                Some(self.custom_view()[self.custom_ids_view().index_of(id)])
            } else {
                None
            },
        }
    }

    pub fn new() -> (r: Self)
        ensures
            r.wf(),
            r.numbered_view() == Seq::<Slot>::empty(),
            r.custom_ids_view() == Seq::<u64>::empty(),
            r.custom_view() == Seq::<Slot>::empty(),
    {
        Inventory { slot_count: 0, numbered: Vec::new(), custom_ids: Vec::new(), custom: Vec::new() }
    }

    pub fn slot_count(&self) -> (r: usize)
        ensures
            r == self.spec_slot_count(),
    {
        self.slot_count
    }
    pub open spec fn has_kind_spec(&self, kind: u64) -> bool {
        exists|i: int| 0 <= i < self.all_slots().len() && (#[trigger] self.all_slots()[i]).holds_kind(kind)
    }

    pub open spec fn has_item_spec(&self, item: BoxedItem) -> bool {
        exists|i: int| 0 <= i < self.all_slots().len() && (#[trigger] self.all_slots()[i]).holds_item(item)
    }

    pub open spec fn count_spec(&self, kind: u64) -> nat {
        amount_of_kind(self.all_slots(), kind)
    }

    pub open spec fn count_item_spec(&self, item: BoxedItem) -> nat {
        amount_of_item(self.all_slots(), item)
    }

    /// Position of the custom slot registered under `id`.
    fn find_custom(&self, id: u64) -> (r: Option<usize>)
        requires
            self.wf(),
        ensures
            r matches Some(i) ==> (i < self.custom_ids_view().len() && self.custom_ids_view()[i as int] == id
                && self.custom_ids_view().index_of(id) == i),
            r is None ==> !self.custom_ids_view().contains(id),
    {
        let mut i: usize = 0;
        while i < self.custom_ids.len()
            invariant
                self.wf(),
                i <= self.custom_ids@.len(),
                forall|j: int| 0 <= j < i ==> self.custom_ids@[j] != id,
            decreases self.custom_ids@.len() - i,
        {
            if self.custom_ids[i] == id {
                proof {
                    let ids = self.custom_ids@;
                    assert(ids[i as int] == id);
                    let k = ids.index_of(id);
                    assert(ids[k] == id && 0 <= k < ids.len());
                }
                return Some(i);
            }
            i = i + 1;
        }
        None
    }

    /// The slot at `key`; fails when the key was never provisioned.
    pub fn get_slot(&self, key: Key) -> (r: Result<&Slot, InvError>)
        requires
            self.wf(),
        ensures
            self.lookup(key) matches Some(slot) ==> (r matches Ok(s) && *s == slot),
            self.lookup(key) is None ==> (r matches Err(e) && e == InvError::NoSuchSlot(key)),
    {
        match key {
            Key::Number(n) => if n < self.numbered.len() {
                Ok(&self.numbered[n])
            } else {
                Err(InvError::NoSuchSlot(key))
            },
            Key::Type(id) => match self.find_custom(id) {
                Some(i) => Ok(&self.custom[i]),
                None => Err(InvError::NoSuchSlot(key)),
            },
        }
    }

    /// The slot at `key`, to change in place; fails when the key was never
    /// provisioned. Whatever is written through the reference lands at `key`
    /// and nowhere else.
    pub fn get_slot_mut(&mut self, key: Key) -> (r: Result<&mut Slot, InvError>)
        requires
            old(self).wf(),
        ensures
            final(self).wf(),
            final(self).same_layout(*old(self)),
            old(self).lookup(key) is None ==> r == Err::<&mut Slot, InvError>(InvError::NoSuchSlot(key))
                && final(self).all_slots() == old(self).all_slots(),
            old(self).lookup(key) is Some ==> (r is Ok) && Some(*r->Ok_0) == old(self).lookup(key)
                && final(self).lookup(key) == Some(*final(r->Ok_0)),
            forall|k: Key| k != key ==> #[trigger] final(self).lookup(k) == old(self).lookup(k),
    {
        match key {
            Key::Number(n) => if n < self.numbered.len() {
                Ok(&mut self.numbered[n])
            } else {
                Err(InvError::NoSuchSlot(key))
            },
            Key::Type(id) => match self.find_custom(id) {
                Some(i) => Ok(&mut self.custom[i]),
                None => Err(InvError::NoSuchSlot(key)),
            },
        }
    }

    /// Numbered slot `i`, to change in place.
    pub fn numbered_slot_mut(&mut self, i: usize) -> (r: &mut Slot)
        requires
            old(self).wf(),
            i < old(self).numbered_view().len(),
        ensures
            *r == old(self).numbered_view()[i as int],
            final(self).wf(),
            final(self).same_layout(*old(self)),
            final(self).numbered_view() == old(self).numbered_view().update(i as int, *final(r)),
            final(self).custom_view() == old(self).custom_view(),
    {
        &mut self.numbered[i]
    }

    /// The `i`th custom slot in registration order, to change in place.
    pub fn custom_slot_mut(&mut self, i: usize) -> (r: &mut Slot)
        requires
            old(self).wf(),
            i < old(self).custom_view().len(),
        ensures
            *r == old(self).custom_view()[i as int],
            final(self).wf(),
            final(self).same_layout(*old(self)),
            final(self).custom_view() == old(self).custom_view().update(i as int, *final(r)),
            final(self).numbered_view() == old(self).numbered_view(),
    {
        &mut self.custom[i]
    }

    /// The key of position `i` of `all_slots`.
    pub open spec fn key_at(&self, i: int) -> Key {
        if i < self.numbered_view().len() {
            Key::Number(i as usize)
        } else {
            Key::Type(self.custom_ids_view()[i - self.numbered_view().len()])
        }
    }

    /// The keys, in slot order, of the first `upto` slots that hold an item
    /// of kind `kind`.
    pub open spec fn keys_of(&self, kind: u64, upto: int) -> Seq<Key>
        decreases upto,
    {
        if upto <= 0 {
            seq![]
        } else if self.all_slots()[upto - 1].holds_kind(kind) {
            self.keys_of(kind, upto - 1).push(self.key_at(upto - 1))
        } else {
            self.keys_of(kind, upto - 1)
        }
    }

    /// The keys of every slot holding an item of kind `kind`, in slot order;
    /// with `get_slot_mut` they give in-place access to those stacks.
    pub fn keys_by_type_id(&self, kind: u64) -> (r: Vec<Key>)
        requires
            self.wf(),
        ensures
            r@ == self.keys_of(kind, self.all_slots().len() as int),
    {
        let n = self.numbered.len();
        let total = self.slot_total();
        let mut out: Vec<Key> = Vec::new();
        let mut i: usize = 0;
        while i < total
            invariant
                self.wf(),
                n == self.numbered_view().len(),
                total == self.all_slots().len(),
                i <= total,
                out@ == self.keys_of(kind, i as int),
            decreases total - i,
        {
            if self.slot_at(i).contains_type(kind) {
                let key = if i < n {
                    Key::Number(i)
                } else {
                    Key::Type(self.custom_ids[i - n])
                };
                out.push(key);
            }
            i = i + 1;
        }
        out
    }

    /// Every occupied stack whose item is of kind `kind`, in slot order.
    pub fn items_by_type_id(&self, kind: u64) -> (r: Vec<BoxedItemStack>)
        requires
            self.wf(),
        ensures
            r@ == stacks_of(self.all_slots(), kind),
    {
        let n = self.slot_total();
        let mut out: Vec<BoxedItemStack> = Vec::new();
        let mut i: usize = 0;
        while i < n
            invariant
                self.wf(),
                n == self.all_slots().len(),
                i <= n,
                out@ == stacks_of(self.all_slots().take(i as int), kind),
            decreases n - i,
        {
            let slot = self.slot_at(i);
            proof {
                assert(self.all_slots().take(i + 1).drop_last() =~= self.all_slots().take(i as int));
            }
            match slot {
                Slot::Occupied(stack) => if stack.item.kind == kind {
                    out.push(*stack);
                },
                Slot::Empty => {},
            }
            i = i + 1;
        }
        assert(self.all_slots().take(n as int) =~= self.all_slots());
        out
    }

    pub fn items<T: Item>(&self) -> (r: Vec<BoxedItemStack>)
        requires
            self.wf(),
        ensures
            r@ == stacks_of(self.all_slots(), T::spec_kind()),
    {
        self.items_by_type_id(T::kind())
    }

    /// Whether some occupied slot holds an item of kind `kind`.
    pub fn has_kind(&self, kind: u64) -> (r: bool)
        requires
            self.wf(),
        ensures
            r == self.has_kind_spec(kind),
    {
        let n = self.slot_total();
        let mut i: usize = 0;
        while i < n
            invariant
                self.wf(),
                n == self.all_slots().len(),
                i <= n,
                forall|j: int| 0 <= j < i ==> !(#[trigger] self.all_slots()[j]).holds_kind(kind),
            decreases n - i,
        {
            if self.slot_at(i).contains_type(kind) {
                return true;
            }
            i = i + 1;
        }
        false
    }

    pub fn has<T: Item>(&self) -> (r: bool)
        requires
            self.wf(),
        ensures
            r == self.has_kind_spec(T::spec_kind()),
    {
        self.has_kind(T::kind())
    }

    /// Whether some occupied slot holds an item equal to `item`.
    pub fn has_boxed_item(&self, item: &BoxedItem) -> (r: bool)
        requires
            self.wf(),
        ensures
            r == self.has_item_spec(*item),
    {
        let n = self.slot_total();
        let mut i: usize = 0;
        while i < n
            invariant
                self.wf(),
                n == self.all_slots().len(),
                i <= n,
                forall|j: int| 0 <= j < i ==> !(#[trigger] self.all_slots()[j]).holds_item(*item),
            decreases n - i,
        {
            match self.slot_at(i) {
                Slot::Occupied(stack) => if stack.item.dyn_eq(item) {
                    return true;
                },
                Slot::Empty => {},
            }
            i = i + 1;
        }
        false
    }

    pub fn has_item<T: Item>(&self, item: T) -> (r: bool)
        requires
            self.wf(),
        ensures
            r == self.has_item_spec(BoxedItem::of(item)),
            // the code names `item` alone, so a stack of that kind and code holds `item`
            forall|v: T| #[trigger] v.spec_code() == item.spec_code() ==> v == item,
    {
        self.has_boxed_item(&BoxedItem::new(&item))
    }

    /// Total amount held in stacks of kind `kind`.
    pub fn count_by_type_id(&self, kind: u64) -> (r: usize)
        requires
            self.wf(),
            self.count_spec(kind) <= usize::MAX,
        ensures
            r == self.count_spec(kind),
    {
        let n = self.slot_total();
        let mut sum: usize = 0;
        let mut i: usize = 0;
        while i < n
            invariant
                self.wf(),
                n == self.all_slots().len(),
                i <= n,
                sum == amount_of_kind(self.all_slots().take(i as int), kind),
                amount_of_kind(self.all_slots(), kind) <= usize::MAX,
            decreases n - i,
        {
            proof {
                assert(self.all_slots().take(i + 1).drop_last() =~= self.all_slots().take(i as int));
                lemma_amount_of_kind_prefix(self.all_slots(), kind, i + 1);
            }
            match self.slot_at(i) {
                Slot::Occupied(stack) => if stack.item.kind == kind {
                    sum = sum + stack.amount;
                },
                Slot::Empty => {},
            }
            i = i + 1;
        }
        assert(self.all_slots().take(n as int) =~= self.all_slots());
        sum
    }

    pub fn count<T: Item>(&self) -> (r: usize)
        requires
            self.wf(),
            self.count_spec(T::spec_kind()) <= usize::MAX,
        ensures
            r == self.count_spec(T::spec_kind()),
    {
        self.count_by_type_id(T::kind())
    }

    /// Total amount held in stacks whose item equals `item`.
    pub fn count_boxed_item(&self, item: &BoxedItem) -> (r: usize)
        requires
            self.wf(),
            self.count_item_spec(*item) <= usize::MAX,
        ensures
            r == self.count_item_spec(*item),
    {
        let n = self.slot_total();
        let mut sum: usize = 0;
        let mut i: usize = 0;
        while i < n
            invariant
                self.wf(),
                n == self.all_slots().len(),
                i <= n,
                sum == amount_of_item(self.all_slots().take(i as int), *item),
                amount_of_item(self.all_slots(), *item) <= usize::MAX,
            decreases n - i,
        {
            proof {
                assert(self.all_slots().take(i + 1).drop_last() =~= self.all_slots().take(i as int));
                lemma_amount_of_item_prefix(self.all_slots(), *item, i + 1);
            }
            match self.slot_at(i) {
                Slot::Occupied(stack) => if stack.item.dyn_eq(item) {
                    sum = sum + stack.amount;
                },
                Slot::Empty => {},
            }
            i = i + 1;
        }
        assert(self.all_slots().take(n as int) =~= self.all_slots());
        sum
    }

    pub fn count_item<T: Item>(&self, item: T) -> (r: usize)
        requires
            self.wf(),
            self.count_item_spec(BoxedItem::of(item)) <= usize::MAX,
        ensures
            r == self.count_item_spec(BoxedItem::of(item)),
            forall|v: T| #[trigger] v.spec_code() == item.spec_code() ==> v == item,
    {
        self.count_boxed_item(&BoxedItem::new(&item))
    }

    /// Same numbered range and same custom ids as `other`.
    pub open spec fn same_layout(&self, other: Inventory) -> bool {
        &&& self.numbered_view().len() == other.numbered_view().len()
        &&& self.spec_slot_count() == other.spec_slot_count()
        &&& self.custom_ids_view() == other.custom_ids_view()
    }

    /// Copies of the numbered slots, by number.
    pub fn numbered_slots(&self) -> (r: Vec<Slot>)
        requires
            self.wf(),
        ensures
            r@ == self.numbered_view(),
    {
        let mut out: Vec<Slot> = Vec::new();
        let mut i: usize = 0;
        while i < self.numbered.len()
            invariant
                i <= self.numbered@.len(),
                out@ == self.numbered@.take(i as int),
            decreases self.numbered@.len() - i,
        {
            out.push(self.numbered[i]);
            i = i + 1;
            assert(out@ =~= self.numbered@.take(i as int));
        }
        assert(self.numbered@.take(i as int) =~= self.numbered@);
        out
    }

    /// Copies of the custom slots, in registration order.
    pub fn custom_slots(&self) -> (r: Vec<Slot>)
        requires
            self.wf(),
        ensures
            r@ == self.custom_view(),
    {
        let mut out: Vec<Slot> = Vec::new();
        let mut i: usize = 0;
        while i < self.custom.len()
            invariant
                i <= self.custom@.len(),
                out@ == self.custom@.take(i as int),
            decreases self.custom@.len() - i,
        {
            out.push(self.custom[i]);
            i = i + 1;
            assert(out@ =~= self.custom@.take(i as int));
        }
        assert(self.custom@.take(i as int) =~= self.custom@);
        out
    }

    /// Reprovisions the numbered range as exactly `count` empty slots; what
    /// the numbered slots held before is dropped.
    pub fn with_slot_count(self, count: usize) -> (r: Self)
        requires
            self.wf(),
            count + self.custom_view().len() <= usize::MAX,
        ensures
            r.wf(),
            r.numbered_view() == Seq::new(count as nat, |i: int| Slot::Empty),
            r.custom_ids_view() == self.custom_ids_view(),
            r.custom_view() == self.custom_view(),
    {
        let mut numbered: Vec<Slot> = Vec::new();
        let mut i: usize = 0;
        while i < count
            invariant
                i <= count,
                numbered@ == Seq::new(i as nat, |j: int| Slot::Empty),
            decreases count - i,
        {
            numbered.push(Slot::Empty);
            i = i + 1;
            assert(numbered@ =~= Seq::new(i as nat, |j: int| Slot::Empty));
        }
        Inventory { slot_count: count, numbered, custom_ids: self.custom_ids, custom: self.custom }
    }

    /// Registers the custom slot `id`, empty. Registering an id again empties
    /// that slot.
    pub fn with_custom_slot(self, id: u64) -> (r: Self)
        requires
            self.wf(),
            !self.custom_ids_view().contains(id) ==> self.numbered_view().len() + self.custom_view().len() < usize::MAX,
        ensures
            r.wf(),
            r.numbered_view() == self.numbered_view(),
            r.spec_slot_count() == self.spec_slot_count(),
            self.custom_ids_view().contains(id) ==> r.custom_ids_view() == self.custom_ids_view()
                && r.custom_view() == self.custom_view().update(self.custom_ids_view().index_of(id), Slot::Empty),
            !self.custom_ids_view().contains(id) ==> r.custom_ids_view() == self.custom_ids_view().push(id)
                && r.custom_view() == self.custom_view().push(Slot::Empty),
    {
        let mut inv = self;
        match inv.find_custom(id) {
            Some(i) => {
                inv.custom.set(i, Slot::Empty);
            },
            None => {
                proof {
                    assert forall|a: int, b: int|
                        0 <= a < inv.custom_ids@.push(id).len() && 0 <= b < inv.custom_ids@.push(id).len() && a != b
                        implies inv.custom_ids@.push(id)[a] != inv.custom_ids@.push(id)[b] by {
                        if a < inv.custom_ids@.len() && b < inv.custom_ids@.len() {
                        } else if a < inv.custom_ids@.len() {
                            assert(inv.custom_ids@[a] != id);
                        } else {
                            assert(inv.custom_ids@[b] != id);
                        }
                    }
                }
                inv.custom_ids.push(id);
                inv.custom.push(Slot::Empty);
            },
        }
        inv
    }

    /// Overwrites the slot at position `i` of `all_slots`.
    fn set_slot_at(&mut self, i: usize, slot: Slot)
        requires
            old(self).wf(),
            i < old(self).all_slots().len(),
        ensures
            final(self).wf(),
            final(self).same_layout(*old(self)),
            final(self).all_slots() == old(self).all_slots().update(i as int, slot),
    {
        if i < self.numbered.len() {
            self.numbered.set(i, slot);
        } else {
            let j = i - self.numbered.len();
            self.custom.set(j, slot);
        }
        assert(self.all_slots() =~= old(self).all_slots().update(i as int, slot));
    }

    /// Stores `stack` in the slot at `key`, replacing whatever it held (a
    /// stack of amount zero leaves the slot empty); fails when the key was
    /// never provisioned.
    pub fn insert(&mut self, key: Key, stack: BoxedItemStack) -> (r: Result<(), InvError>)
        requires
            old(self).wf(),
        ensures
            final(self).wf(),
            final(self).same_layout(*old(self)),
            old(self).lookup(key) is None ==> r == Err::<(), InvError>(InvError::NoSuchSlot(key))
                && final(self).all_slots() == old(self).all_slots(),
            old(self).lookup(key) is Some ==> (r is Ok) && final(self).lookup(key) == Some(Slot::holding(stack)),
            forall|k: Key| k != key ==> #[trigger] final(self).lookup(k) == old(self).lookup(k),
    {
        match key {
            Key::Number(n) => if n < self.numbered.len() {
                self.numbered.set(n, Slot::of_stack(stack));
                Ok(())
            } else {
                Err(InvError::NoSuchSlot(key))
            },
            Key::Type(id) => match self.find_custom(id) {
                Some(i) => {
                    self.custom.set(i, Slot::of_stack(stack));
                    Ok(())
                },
                None => Err(InvError::NoSuchSlot(key)),
            },
        }
    }

    /// Puts `stack` into the empty numbered slots, first empty slot first,
    /// never more than the item's bound into one slot; fails, handing back
    /// what found no room, when the empty numbered slots run out. What was
    /// placed before that stays placed.
    pub fn add_item_to_first_empty_slot(&mut self, stack: BoxedItemStack) -> (r: Result<(), InvError>)
        requires
            old(self).wf(),
        ensures
            final(self).wf(),
            final(self).same_layout(*old(self)),
            ({
                let (ps, left) = placed(old(self).all_slots(), old(self).numbered_view().len() as int, stack.item, stack.amount as nat);
                &&& left <= stack.amount
                &&& final(self).all_slots() == ps
                &&& left == 0 ==> r is Ok
                &&& left > 0 ==> r == Err::<(), InvError>(
                    InvError::NotEnoughSpace { left: BoxedItemStack { item: stack.item, amount: left as usize } },
                )
            }),
    {
        let n = self.numbered.len();
        let ghost s0 = self.all_slots();
        let mut left: usize = stack.amount;
        let mut i: usize = 0;
        while i < n
            invariant
                self.wf(),
                self.same_layout(*old(self)),
                s0 == old(self).all_slots(),
                n == self.numbered_view().len(),
                n <= s0.len(),
                i <= n,
                self.all_slots() == filled(s0.take(i as int), stack.item, stack.amount as nat).0 + s0.skip(i as int),
                left == filled(s0.take(i as int), stack.item, stack.amount as nat).1,
                left <= stack.amount,
            decreases n - i,
        {
            proof {
                lemma_filled_len(s0.take(i as int), stack.item, stack.amount as nat);
                assert(s0.take(i + 1).drop_last() =~= s0.take(i as int));
                assert(self.all_slots()[i as int] == s0[i as int]);
            }
            let (slot, rest) = settle_slot(self.slot_at(i), &stack.item, left);
            self.set_slot_at(i, slot);
            left = rest;
            proof {
                let front = filled(s0.take(i as int), stack.item, stack.amount as nat).0;
                assert(self.all_slots() =~= front.push(slot) + s0.skip(i + 1));
            }
            i = i + 1;
        }
        proof {
            assert(s0.take(n as int).skip(0) =~= s0.take(n as int));
        }
        if left == 0 {
            Ok(())
        } else {
            Err(InvError::NotEnoughSpace { left: BoxedItemStack { item: stack.item, amount: left } })
        }
    }

    /// Adds `stack`: first merges as much of it as fits into stacks of an
    /// equal item, visiting slots in order, then spreads what is left over the
    /// empty numbered slots, at most the item's bound in each. Empty custom
    /// slots are never filled here. On failure what was merged or placed
    /// stays, and the rest is handed back.
    pub fn add(&mut self, stack: BoxedItemStack) -> (r: Result<(), InvError>)
        requires
            old(self).wf(),
        ensures
            final(self).wf(),
            final(self).same_layout(*old(self)),
            ({
                let (ms, merge_left) = merged(old(self).all_slots(), stack.item, stack.amount as nat);
                let (ps, left) = placed(ms, old(self).numbered_view().len() as int, stack.item, merge_left);
                &&& left <= merge_left <= stack.amount
                &&& final(self).all_slots() == ps
                &&& left == 0 ==> r is Ok
                &&& left > 0 ==> r == Err::<(), InvError>(
                    InvError::NotEnoughSpace { left: BoxedItemStack { item: stack.item, amount: left as usize } },
                )
            }),
    {
        let total = self.slot_total();
        let ghost s0 = self.all_slots();
        let mut left: usize = stack.amount;
        let mut i: usize = 0;
        while i < total
            invariant
                self.wf(),
                self.same_layout(*old(self)),
                s0 == old(self).all_slots(),
                total == s0.len(),
                i <= total,
                self.all_slots() == merged(s0.take(i as int), stack.item, stack.amount as nat).0 + s0.skip(i as int),
                left == merged(s0.take(i as int), stack.item, stack.amount as nat).1,
                left <= stack.amount,
            decreases total - i,
        {
            proof {
                lemma_merged_len(s0.take(i as int), stack.item, stack.amount as nat);
                assert(s0.take(i + 1).drop_last() =~= s0.take(i as int));
                assert(self.all_slots()[i as int] == s0[i as int]);
            }
            let (slot, rest) = absorb_slot(self.slot_at(i), &stack.item, left);
            self.set_slot_at(i, slot);
            left = rest;
            proof {
                let front = merged(s0.take(i as int), stack.item, stack.amount as nat).0;
                assert(self.all_slots() =~= front.push(slot) + s0.skip(i + 1));
            }
            i = i + 1;
        }
        proof {
            assert(s0.take(total as int) =~= s0);
            assert(s0.skip(total as int) =~= Seq::<Slot>::empty());
            assert(self.all_slots() =~= merged(s0, stack.item, stack.amount as nat).0);
        }
        self.add_item_to_first_empty_slot(BoxedItemStack { item: stack.item, amount: left })
    }

    /// The slot at position `i` of `all_slots`.
    fn slot_at(&self, i: usize) -> (r: &Slot)
        requires
            self.wf(),
            i < self.all_slots().len(),
        ensures
            *r == self.all_slots()[i as int],
    {
        if i < self.numbered.len() {
            &self.numbered[i]
        } else {
            &self.custom[i - self.numbered.len()]
        }
    }

    /// Number of slots of every kind.
    fn slot_total(&self) -> (r: usize)
        requires
            self.wf(),
        ensures
            r == self.all_slots().len(),
    {
        self.numbered.len() + self.custom.len()
    }
}

} // verus!
