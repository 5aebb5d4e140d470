use vstd::prelude::*;

verus! {

/// The name of a room that could not be found.
#[derive(Debug, Clone)]
pub struct WhereAmI(pub String);

/// A lookup named a room that has no entry in the house.
#[derive(Debug, Clone)]
pub struct NoSuchRoom(pub WhereAmI);

impl From<WhereAmI> for NoSuchRoom {
    fn from(w: WhereAmI) -> (r: NoSuchRoom) {
        NoSuchRoom(w)
    }
}

impl vstd::std_specs::convert::FromSpecImpl<WhereAmI> for NoSuchRoom {
    open spec fn obeys_from_spec() -> bool {
        true
    }

    open spec fn from_spec(w: WhereAmI) -> NoSuchRoom {
        NoSuchRoom(w)
    }
}

impl NoSuchRoom {
    /// The name of the missing room.
    pub open spec fn room_view(&self) -> Seq<char> {
        self.0.0@
    }
}

/// The room already holds a device of this name.
#[derive(Debug, Clone)]
pub struct AlreadyContainsDevice(pub String);

impl AlreadyContainsDevice {
    /// The name of the device that collided.
    pub open spec fn name_view(&self) -> Seq<char> {
        self.0@
    }
}

} // verus!
