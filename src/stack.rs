use vstd::prelude::*;

use crate::item::{BoxedItem, Item};

verus! {

/// A concretely typed item together with an amount.
#[derive(Debug)]
pub struct ItemStack<T: Item> {
    pub item: T,
    pub amount: usize,
}

impl<T: Item> ItemStack<T> {
    pub fn new(item: T, amount: usize) -> (r: Self)
        ensures
            r.item == item,
            r.amount == amount,
    {
        ItemStack { item, amount }
    }

    pub fn is_empty(&self) -> (r: bool)
        ensures
            r == (self.amount == 0),
    {
        self.amount < 1
    }
}

/// An erased item together with an amount.
#[derive(Debug, PartialEq, Eq, Structural, Clone, Copy)]
pub struct BoxedItemStack {
    pub item: BoxedItem,
    pub amount: usize,
}

impl BoxedItemStack {
    pub fn new<T: Item>(item: T, amount: usize) -> (r: Self)
        ensures
            r.item == BoxedItem::of(item),
            r.amount == amount,
    {
        BoxedItemStack { item: BoxedItem::new(&item), amount }
    }

    pub fn from_stack<T: Item>(stack: ItemStack<T>) -> (r: Self)
        ensures
            r.item == BoxedItem::of(stack.item),
            r.amount == stack.amount,
    {
        Self::new(stack.item, stack.amount)
    }

    /// The item as a value of `T`: `None` when the item is of another type.
    pub fn typed<T: Item>(&self) -> (r: Option<T>)
        ensures
            self.item.kind != T::spec_kind() ==> r is None,
            self.item.kind == T::spec_kind() ==> (r matches Some(v) ==> v.spec_code() == self.item.code),
            self.item.kind == T::spec_kind() ==> forall|v: T| #[trigger] v.spec_code() == self.item.code ==> r == Some(v),
    {
        if self.item.kind == T::kind() {
            T::from_code(self.item.code)
        } else {
            None
        }
    }

    pub fn is<T: Item>(&self) -> (r: bool)
        ensures
            r == (self.item.kind == T::spec_kind()),
    {
        self.item.kind == T::kind()
    }

    pub fn is_type(&self, kind: u64) -> (r: bool)
        ensures
            r == (self.item.kind == kind),
    {
        self.item.kind == kind
    }

    pub fn is_empty(&self) -> (r: bool)
        ensures
            r == (self.amount == 0),
    {
        self.amount < 1
    }
}

} // verus!
