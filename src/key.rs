use vstd::prelude::*;

verus! {

/// Address of a slot: an ordinal slot number, or a nominal slot identified by
/// the id that the application assigned to its marker.
#[derive(Debug, Hash, PartialEq, Eq, Structural, Clone, Copy)]
pub enum Key {
    Number(usize),
    Type(u64),
}

impl Key {
    pub fn is_numbered(&self) -> (r: bool)
        ensures
            r == (*self is Number),
    {
        matches!(self, Key::Number(_))
    }

    pub fn is_type(&self) -> (r: bool)
        ensures
            r == (*self is Type),
    {
        matches!(self, Key::Type(_))
    }
}

impl From<usize> for Key {
    fn from(value: usize) -> (r: Key)
        ensures
            r == Key::Number(value),
    {
        Key::Number(value)
    }
}

impl vstd::std_specs::convert::FromSpecImpl<usize> for Key {
    open spec fn obeys_from_spec() -> bool {
        true
    }

    open spec fn from_spec(value: usize) -> Key {
        Key::Number(value)
    }
}

} // verus!
