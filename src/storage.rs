use vstd::prelude::*;

verus! {

/// The identity of a device held by a house: its slot in the house's arena.
/// Two sockets of the same name added separately get distinct ids.
#[derive(Debug, Clone, Copy, PartialEq, Eq, Structural)]
pub struct SocketId(pub usize);

/// A flat index of every socket added to a house, regardless of its room.
/// It does not enforce uniqueness.
pub struct SocketStorage {
    devices: Vec<SocketId>,
}

/// Holds of every identity but `id`.
pub open spec fn other_than(id: SocketId) -> spec_fn(SocketId) -> bool {
    |x: SocketId| x != id
}

/// `ids` without any entry equal to `id`, the others kept in order.
pub open spec fn without_id(ids: Seq<SocketId>, id: SocketId) -> Seq<SocketId> {
    ids.filter(other_than(id))
}

impl View for SocketStorage {
    type V = Seq<SocketId>;

    closed spec fn view(&self) -> Seq<SocketId> {
        self.devices@
    }
}

impl Default for SocketStorage {
    fn default() -> (s: SocketStorage)
        ensures
            s@ == Seq::<SocketId>::empty(),
    {
        SocketStorage::new()
    }
}

impl SocketStorage {
    /// An empty index.
    pub fn new() -> (s: SocketStorage)
        ensures
            s@ == Seq::<SocketId>::empty(),
    {
        SocketStorage { devices: Vec::new() }
    }

    /// Appends `id`.
    pub fn add(&mut self, id: SocketId)
        ensures
            final(self)@ == old(self)@.push(id),
    {
        self.devices.push(id);
    }

    /// Removes every entry equal to `id`, keeping the others in order.
    pub fn remove(&mut self, id: SocketId)
        ensures
            final(self)@ == without_id(old(self)@, id),
    {
        let ghost start = self.devices@;
        let mut kept: Vec<SocketId> = Vec::new();
        let mut i: usize = 0;
        while i < self.devices.len()
            invariant
                self.devices@ == start,
                i <= start.len(),
                kept@ == without_id(start.subrange(0, i as int), id),
            decreases start.len() - i,
        {
            let cur = self.devices[i];
            proof {
                reveal(Seq::filter);
                assert(start.subrange(0, i + 1).drop_last() == start.subrange(0, i as int));
            }
            if cur != id {
                kept.push(cur);
            }
            i = i + 1;
        }
        assert(start.subrange(0, start.len() as int) == start);
        self.devices = kept;
    }

    /// The entries, in the order they were added.
    pub fn ids(&self) -> (r: Vec<SocketId>)
        ensures
            r@ == self@,
    {
        self.devices.clone()
    }

    /// Whether `id` has an entry.
    pub fn contains(&self, id: SocketId) -> (r: bool)
        ensures
            r == self@.contains(id),
    {
        let mut i: usize = 0;
        while i < self.devices.len()
            invariant
                i <= self.devices@.len(),
                forall|j: int| 0 <= j < i ==> self.devices@[j] != id,
            decreases self.devices@.len() - i,
        {
            if self.devices[i] == id {
                return true;
            }
            i = i + 1;
        }
        false
    }
}

} // verus!
