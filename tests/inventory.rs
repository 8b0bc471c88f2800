use static_inventory::{
    BoxedItem, BoxedItemStack, HasInInventory, InvError, Inventory, Item, ItemStack, Key, Slot,
    DEFAULT_MAX_IN_STACK,
};

#[derive(Debug, PartialEq, Eq, Clone)]
pub struct Stick;

impl Item for Stick {
    fn spec_kind() -> u64 {
        1
    }
    fn spec_code(&self) -> u64 {
        0
    }
    fn spec_max_in_stack(&self) -> usize {
        DEFAULT_MAX_IN_STACK
    }
    fn kind() -> u64 {
        1
    }
    fn code(&self) -> u64 {
        0
    }
    fn max_in_stack(&self) -> usize {
        DEFAULT_MAX_IN_STACK
    }
    fn from_code(code: u64) -> Option<Self> {
        if code == 0 { Some(Stick) } else { None }
    }
}

#[derive(Debug, PartialEq, Eq, Clone)]
pub struct Apple;

impl Item for Apple {
    fn spec_kind() -> u64 {
        2
    }
    fn spec_code(&self) -> u64 {
        0
    }
    fn spec_max_in_stack(&self) -> usize {
        DEFAULT_MAX_IN_STACK
    }
    fn kind() -> u64 {
        2
    }
    fn code(&self) -> u64 {
        0
    }
    fn max_in_stack(&self) -> usize {
        DEFAULT_MAX_IN_STACK
    }
    fn from_code(code: u64) -> Option<Self> {
        if code == 0 { Some(Apple) } else { None }
    }
}

#[derive(Debug, PartialEq, Eq, Clone)]
pub enum Crystal {
    Red,
    Green,
}

impl Item for Crystal {
    fn spec_kind() -> u64 {
        3
    }
    fn spec_code(&self) -> u64 {
        self.code()
    }
    fn spec_max_in_stack(&self) -> usize {
        DEFAULT_MAX_IN_STACK
    }
    fn kind() -> u64 {
        3
    }
    fn code(&self) -> u64 {
        match self {
            Crystal::Red => 0,
            Crystal::Green => 1,
        }
    }
    fn max_in_stack(&self) -> usize {
        DEFAULT_MAX_IN_STACK
    }
    fn from_code(code: u64) -> Option<Self> {
        match code {
            0 => Some(Crystal::Red),
            1 => Some(Crystal::Green),
            _ => None,
        }
    }
}

#[derive(Debug, PartialEq, Eq, Clone)]
pub struct Helmet;

impl Item for Helmet {
    fn spec_kind() -> u64 {
        4
    }
    fn spec_code(&self) -> u64 {
        0
    }
    fn spec_max_in_stack(&self) -> usize {
        DEFAULT_MAX_IN_STACK
    }
    fn kind() -> u64 {
        4
    }
    fn code(&self) -> u64 {
        0
    }
    fn max_in_stack(&self) -> usize {
        DEFAULT_MAX_IN_STACK
    }
    fn from_code(code: u64) -> Option<Self> {
        if code == 0 { Some(Helmet) } else { None }
    }
}

const CUSTOM_SLOT: u64 = 100;
const HELMET_SLOT: u64 = 101;

fn one<T: Item>(item: T) -> BoxedItemStack {
    BoxedItemStack::new(item, 1)
}

#[test]
fn test_inventory() {
    let mut inv = Inventory::new().with_slot_count(1).with_custom_slot(CUSTOM_SLOT);

    match inv.add(BoxedItemStack::from_stack(ItemStack::new(Stick, 5))) {
        Err(InvError::NotEnoughSpace { left }) => assert_eq!(left.amount, 1),
        _ => panic!("expected NotEnoughSpace"),
    }
    assert!(inv.has::<Stick>());
    assert_eq!(inv.count::<Stick>(), 4);

    let apples = ItemStack::new(Apple, 4);

    assert!(matches!(
        inv.add(BoxedItemStack::from_stack(apples)),
        Err(InvError::NotEnoughSpace { .. })
    ));

    inv.insert(Key::Type(CUSTOM_SLOT), one(Apple)).unwrap();
    assert!(inv.has::<Apple>());
    assert_eq!(inv.count::<Apple>(), 1);
}

#[test]
fn test_enum_item() {
    let mut inv = Inventory::new().with_slot_count(2);

    inv.add(one(Crystal::Red)).unwrap();
    inv.add(one(Crystal::Red)).unwrap();
    inv.add(one(Crystal::Green)).unwrap();

    assert!(inv.has::<Crystal>());
    assert!(inv.has_item(Crystal::Red));
    assert!(inv.has_item(Crystal::Green));

    assert_eq!(inv.count::<Crystal>(), 3);
    assert_eq!(inv.count_item(Crystal::Red), 2);
    assert_eq!(inv.count_item(Crystal::Green), 1);
}

#[test]
fn test_custom_slot() {
    let mut inv = Inventory::new().with_custom_slot(HELMET_SLOT);

    assert!(matches!(
        inv.add(one(Helmet)),
        Err(InvError::NotEnoughSpace { .. })
    ));

    inv.insert(Key::Type(HELMET_SLOT), one(Helmet)).unwrap();
}

#[test]
fn test_add_boxed_item() {
    let boxed_item: BoxedItemStack = BoxedItemStack::from_stack(ItemStack::new(Crystal::Red, 1));
    assert!(boxed_item.is::<Crystal>());
    assert!(boxed_item.is_type(<Crystal as Item>::kind()));

    let mut inv = Inventory::new().with_slot_count(2);

    inv.add(one(Crystal::Red)).unwrap();
    inv.add(one(Crystal::Red)).unwrap();
    inv.add(one(Crystal::Green)).unwrap();

    assert!(inv.has::<Crystal>());
    assert!(inv.has_item(Crystal::Red));
    assert!(inv.has_item(Crystal::Green));

    assert_eq!(inv.count::<Crystal>(), 3);
    assert_eq!(inv.count_item(Crystal::Red), 2);
    assert_eq!(inv.count_item(Crystal::Green), 1);
}

#[test]
fn one_by_one_fills_a_stack_then_opens_another() {
    let mut inv = Inventory::new().with_slot_count(2);
    for _ in 0..DEFAULT_MAX_IN_STACK + 2 {
        inv.add(one(Stick)).unwrap();
    }
    let stacks = inv.items::<Stick>();
    assert_eq!(stacks.len(), 2);
    assert_eq!(stacks[0].amount, DEFAULT_MAX_IN_STACK);
    assert_eq!(stacks[1].amount, 2);
}

#[test]
fn one_by_one_without_second_slot_fails_and_keeps_the_full_stack() {
    let mut inv = Inventory::new().with_slot_count(1);
    for _ in 0..DEFAULT_MAX_IN_STACK {
        inv.add(one(Stick)).unwrap();
    }
    match inv.add(one(Stick)) {
        Err(InvError::NotEnoughSpace { left }) => assert_eq!(left.amount, 1),
        _ => panic!("expected NotEnoughSpace"),
    }
    assert_eq!(inv.count::<Stick>(), DEFAULT_MAX_IN_STACK);
}

#[test]
fn merge_tops_up_and_places_the_rest() {
    let mut inv = Inventory::new().with_slot_count(2);
    inv.add(BoxedItemStack::new(Apple, 3)).unwrap();
    inv.add(BoxedItemStack::new(Apple, 3)).unwrap();
    let stacks = inv.items::<Apple>();
    assert_eq!(stacks.len(), 2);
    assert_eq!(stacks[0].amount, 4);
    assert_eq!(stacks[1].amount, 2);
}

#[test]
fn partial_merge_is_kept_when_no_slot_is_free() {
    let mut inv = Inventory::new().with_slot_count(1);
    inv.add(BoxedItemStack::new(Apple, 3)).unwrap();
    match inv.add(BoxedItemStack::new(Apple, 3)) {
        Err(InvError::NotEnoughSpace { left }) => {
            assert_eq!(left.amount, 2);
            assert!(left.is::<Apple>());
        }
        _ => panic!("expected NotEnoughSpace"),
    }
    assert_eq!(inv.count::<Apple>(), 4);
}

#[test]
fn adding_zero_changes_nothing() {
    let mut full = Inventory::new().with_slot_count(1);
    full.add(BoxedItemStack::new(Stick, 2)).unwrap();
    assert!(full.add(BoxedItemStack::new(Apple, 0)).is_ok());
    assert!(full.add(BoxedItemStack::new(Stick, 0)).is_ok());
    assert_eq!(full.count::<Stick>(), 2);
    assert!(!full.has::<Apple>());

    let mut empty = Inventory::new();
    assert!(empty.add(BoxedItemStack::new(Apple, 0)).is_ok());
    assert!(!empty.has::<Apple>());
}

#[test]
fn count_is_sum_of_items() {
    let mut inv = Inventory::new().with_slot_count(3).with_custom_slot(CUSTOM_SLOT);
    inv.add(BoxedItemStack::new(Crystal::Red, 3)).unwrap();
    inv.add(BoxedItemStack::new(Crystal::Green, 2)).unwrap();
    inv.insert(Key::Type(CUSTOM_SLOT), BoxedItemStack::new(Crystal::Red, 7)).unwrap();
    let sum: usize = inv.items::<Crystal>().iter().map(|s| s.amount).sum();
    assert_eq!(inv.count::<Crystal>(), sum);
    assert_eq!(sum, 12);
    assert_eq!(inv.count_item(Crystal::Red), 10);
}

#[test]
fn unequal_values_do_not_merge() {
    let mut inv = Inventory::new().with_slot_count(2);
    inv.add(one(Crystal::Red)).unwrap();
    inv.add(one(Crystal::Green)).unwrap();
    assert_eq!(inv.items::<Crystal>().len(), 2);
    assert_eq!(inv.count::<Crystal>(), 2);
    assert_eq!(inv.count_item(Crystal::Red), 1);
    assert_eq!(inv.count_item(Crystal::Green), 1);
    assert!(!inv.has_item(Stick));
}

#[test]
fn insert_into_unprovisioned_key_fails() {
    let mut inv = Inventory::new().with_slot_count(1);
    assert!(matches!(
        inv.insert(Key::Number(1), one(Stick)),
        Err(InvError::NoSuchSlot(Key::Number(1)))
    ));
    assert!(matches!(
        inv.insert(Key::Type(HELMET_SLOT), one(Stick)),
        Err(InvError::NoSuchSlot(Key::Type(HELMET_SLOT)))
    ));
    assert!(matches!(inv.get_slot(Key::Number(3)), Err(InvError::NoSuchSlot(Key::Number(3)))));
}

#[test]
fn insert_replaces_what_the_slot_held() {
    let mut inv = Inventory::new().with_slot_count(1);
    inv.add(BoxedItemStack::new(Stick, 3)).unwrap();
    inv.insert(Key::Number(0), BoxedItemStack::new(Apple, 2)).unwrap();
    assert!(!inv.has::<Stick>());
    assert_eq!(inv.count::<Apple>(), 2);
    match inv.get_slot(Key::Number(0)) {
        Ok(Slot::Occupied(stack)) => assert_eq!(stack.amount, 2),
        _ => panic!("expected an occupied slot"),
    }
}

#[test]
fn shrinking_drops_numbered_contents() {
    let mut inv = Inventory::new().with_slot_count(3).with_custom_slot(CUSTOM_SLOT);
    inv.insert(Key::Number(0), one(Stick)).unwrap();
    inv.insert(Key::Number(2), one(Apple)).unwrap();
    inv.insert(Key::Type(CUSTOM_SLOT), one(Helmet)).unwrap();
    let inv = inv.with_slot_count(1);
    assert_eq!(inv.slot_count(), 1);
    assert!(matches!(inv.get_slot(Key::Number(2)), Err(InvError::NoSuchSlot(_))));
    assert!(!inv.has::<Apple>());
    assert!(matches!(inv.get_slot(Key::Number(0)), Ok(Slot::Empty)));
    assert!(inv.has::<Helmet>());
    assert_eq!(inv.numbered_slots().len(), 1);
    assert_eq!(inv.custom_slots().len(), 1);
}

#[test]
fn registering_a_custom_slot_again_empties_it() {
    let mut inv = Inventory::new().with_custom_slot(CUSTOM_SLOT);
    inv.insert(Key::Type(CUSTOM_SLOT), one(Helmet)).unwrap();
    let inv = inv.with_custom_slot(CUSTOM_SLOT);
    assert_eq!(inv.custom_slots().len(), 1);
    assert!(matches!(inv.get_slot(Key::Type(CUSTOM_SLOT)), Ok(Slot::Empty)));
}

#[test]
fn helmet_goes_only_into_its_slot() {
    let mut inv = Inventory::new().with_slot_count(1).with_custom_slot(HELMET_SLOT);
    inv.add(one(Stick)).unwrap();
    assert!(matches!(inv.add(one(Helmet)), Err(InvError::NotEnoughSpace { .. })));
    inv.insert(Key::Type(HELMET_SLOT), one(Helmet)).unwrap();
    assert!(matches!(inv.get_slot(Key::Type(HELMET_SLOT)), Ok(Slot::Occupied(_))));
}

#[test]
fn containment_predicate() {
    let mut inv = Inventory::new().with_slot_count(1).with_custom_slot(HELMET_SLOT);
    inv.add(one(Stick)).unwrap();
    inv.insert(Key::Type(HELMET_SLOT), one(Helmet)).unwrap();
    assert!(HasInInventory::anywhere(<Stick as Item>::kind()).matches(&inv));
    assert!(HasInInventory::new(<Helmet as Item>::kind(), Some(Key::Type(HELMET_SLOT))).matches(&inv));
    assert!(!HasInInventory::new(<Stick as Item>::kind(), Some(Key::Type(HELMET_SLOT))).matches(&inv));
    assert!(!HasInInventory::new(<Stick as Item>::kind(), Some(Key::Type(CUSTOM_SLOT))).matches(&inv));
    assert!(!HasInInventory::anywhere(<Apple as Item>::kind()).matches(&inv));
}

#[test]
fn typed_recovers_the_value() {
    let stack = BoxedItemStack::new(Crystal::Green, 2);
    assert_eq!(stack.typed::<Crystal>(), Some(Crystal::Green));
    assert_eq!(stack.typed::<Stick>(), None);
    assert!(!stack.is::<Apple>());
    assert!(!stack.is_empty());
    assert!(BoxedItemStack::new(Stick, 0).is_empty());
    assert!(ItemStack::new(Stick, 0).is_empty());
    assert!(!ItemStack::new(Stick, 1).is_empty());
    let a = BoxedItem::new(&Crystal::Red);
    assert!(a.dyn_eq(&BoxedItem::new(&Crystal::Red)));
    assert!(!a.dyn_eq(&BoxedItem::new(&Crystal::Green)));
    assert!(!a.dyn_eq(&BoxedItem::new(&Stick)));
}

#[test]
fn keys_are_classified() {
    assert!(Key::Number(0).is_numbered());
    assert!(!Key::Number(0).is_type());
    assert!(Key::Type(7).is_type());
    assert!(!Key::Type(7).is_numbered());
}

#[test]
fn slot_queries() {
    let slot = Slot::Occupied(one(Apple));
    assert!(!slot.is_empty());
    assert!(slot.contains::<Apple>());
    assert!(!slot.contains::<Stick>());
    assert!(slot.contains_type(<Apple as Item>::kind()));
    assert!(Slot::Empty.is_empty());
    assert!(!Slot::Empty.contains::<Apple>());
}

#[test]
fn get_slot_mut_writes_in_place() {
    let mut inv = Inventory::new().with_slot_count(2);
    *inv.get_slot_mut(Key::Number(1)).unwrap() = Slot::Occupied(BoxedItemStack::new(Stick, 3));
    assert_eq!(inv.count::<Stick>(), 3);
    assert!(matches!(inv.get_slot(Key::Number(0)), Ok(Slot::Empty)));
    assert!(matches!(inv.get_slot_mut(Key::Number(2)), Err(InvError::NoSuchSlot(Key::Number(2)))));
    assert_eq!(Key::from(4usize), Key::Number(4));
}

#[test]
fn one_add_over_the_bound_is_split_across_slots() {
    let mut inv = Inventory::new().with_slot_count(2);
    inv.add(BoxedItemStack::new(Stick, DEFAULT_MAX_IN_STACK + 3)).unwrap();
    let stacks = inv.items::<Stick>();
    assert_eq!(stacks.len(), 2);
    assert_eq!(stacks[0].amount, DEFAULT_MAX_IN_STACK);
    assert_eq!(stacks[1].amount, 3);
}

#[test]
fn one_add_over_the_bound_without_room_keeps_what_was_placed() {
    let mut inv = Inventory::new().with_slot_count(1).with_custom_slot(CUSTOM_SLOT);
    match inv.add(BoxedItemStack::new(Stick, DEFAULT_MAX_IN_STACK + 2)) {
        Err(InvError::NotEnoughSpace { left }) => {
            assert_eq!(left.amount, 2);
            assert!(left.is::<Stick>());
        }
        _ => panic!("expected NotEnoughSpace"),
    }
    assert_eq!(inv.count::<Stick>(), DEFAULT_MAX_IN_STACK);
    assert!(matches!(inv.get_slot(Key::Type(CUSTOM_SLOT)), Ok(Slot::Empty)));
}

#[test]
fn inserting_an_empty_stack_leaves_the_slot_empty() {
    let mut inv = Inventory::new().with_slot_count(1).with_custom_slot(CUSTOM_SLOT);
    inv.add(one(Stick)).unwrap();
    inv.insert(Key::Number(0), BoxedItemStack::new(Apple, 0)).unwrap();
    inv.insert(Key::Type(CUSTOM_SLOT), BoxedItemStack::new(Apple, 0)).unwrap();
    assert!(matches!(inv.get_slot(Key::Number(0)), Ok(Slot::Empty)));
    assert!(matches!(inv.get_slot(Key::Type(CUSTOM_SLOT)), Ok(Slot::Empty)));
    assert!(!inv.has::<Stick>());
}

#[test]
fn boxing_then_typed_gives_the_value_back() {
    let stack = BoxedItemStack::new(Crystal::Red, 1);
    assert_eq!(stack.typed::<Crystal>(), Some(Crystal::Red));
    assert_eq!(stack.is::<Crystal>(), stack.typed::<Crystal>().is_some());
    assert_eq!(stack.is::<Apple>(), stack.typed::<Apple>().is_some());
}

#[test]
fn slot_accessors_write_in_place_and_keys_locate_stacks() {
    let mut inv = Inventory::new().with_slot_count(2).with_custom_slot(CUSTOM_SLOT);
    *inv.numbered_slot_mut(1) = Slot::Occupied(BoxedItemStack::new(Stick, 2));
    *inv.custom_slot_mut(0) = Slot::Occupied(BoxedItemStack::new(Stick, 1));
    assert_eq!(inv.count::<Stick>(), 3);
    assert_eq!(
        inv.keys_by_type_id(<Stick as Item>::kind()),
        vec![Key::Number(1), Key::Type(CUSTOM_SLOT)]
    );
    assert!(inv.keys_by_type_id(<Apple as Item>::kind()).is_empty());
}
