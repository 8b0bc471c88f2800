pub mod inventory;
pub mod item;
pub mod key;
pub mod laws;
pub mod query;
pub mod stack;

pub use inventory::{InvError, Inventory, Slot};
pub use item::{BoxedItem, Item, DEFAULT_MAX_IN_STACK};
pub use key::Key;
pub use query::{AnySlot, HasInInventory};
pub use stack::{BoxedItemStack, ItemStack};
