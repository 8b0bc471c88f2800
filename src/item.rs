use vstd::prelude::*;

verus! {

/// Stack bound that item types use unless they have a reason to pick another.
pub const DEFAULT_MAX_IN_STACK: usize = 4;

/// What every storable item type supplies: a kind shared by all its values and
/// distinct from every other item type's, a code that two values share exactly
/// when they are equal, and the largest amount one stack of the value may hold.
pub trait Item: Sized {
    spec fn spec_kind() -> u64;

    spec fn spec_code(&self) -> u64;

    spec fn spec_max_in_stack(&self) -> usize;

    fn kind() -> (r: u64)
        ensures
            r == Self::spec_kind(),
    ;

    /// No other value of the type has the same code.
    fn code(&self) -> (r: u64)
        ensures
            r == self.spec_code(),
            forall|v: Self| #[trigger] v.spec_code() == r ==> v == *self,
    ;

    fn max_in_stack(&self) -> (r: usize)
        ensures
            r == self.spec_max_in_stack(),
            r >= 1,
    ;

    /// The value that has the given code, when there is one.
    fn from_code(code: u64) -> (r: Option<Self>)
        ensures
            r matches Some(v) ==> v.spec_code() == code,
            forall|v: Self| #[trigger] v.spec_code() == code ==> r == Some(v),
    ;
}

/// An item with its concrete type erased: the type's kind, the value's code,
/// and the stack bound of the value.
#[derive(Debug, PartialEq, Eq, Structural, Clone, Copy)]
pub struct BoxedItem {
    pub kind: u64,
    pub code: u64,
    pub max_in_stack: usize,
}

impl BoxedItem {
    pub open spec fn of<T: Item>(item: T) -> BoxedItem {
        BoxedItem { kind: T::spec_kind(), code: item.spec_code(), max_in_stack: item.spec_max_in_stack() }
    }

    /// Two erased items are equal when they have the same type and equal values.
    pub open spec fn same_as(self, other: BoxedItem) -> bool {
        self.kind == other.kind && self.code == other.code
    }

    pub fn new<T: Item>(item: &T) -> (r: BoxedItem)
        ensures
            r == BoxedItem::of(*item),
            forall|v: T| #[trigger] v.spec_code() == item.spec_code() ==> v == *item,
    {
        BoxedItem { kind: T::kind(), code: item.code(), max_in_stack: item.max_in_stack() }
    }

    pub fn dyn_eq(&self, other: &BoxedItem) -> (r: bool)
        ensures
            r == self.same_as(*other),
    {
        self.kind == other.kind && self.code == other.code
    }
}

} // verus!
