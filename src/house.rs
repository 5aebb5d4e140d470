use crate::device::{random_below, Device, Socket, SocketView, VOLTAGE_LIMIT};
use crate::error::{AlreadyContainsDevice, NoSuchRoom, WhereAmI};
use crate::storage::{without_id, SocketId, SocketStorage};
use vstd::prelude::*;

verus! {

/// The abstract state of a room: its name and, in insertion order, the name of
/// each device in it with the identity of that device.
pub struct RoomView {
    pub name: Seq<char>,
    pub devices: Seq<(Seq<char>, SocketId)>,
}

/// The abstract state of a house.
pub struct HouseView {
    pub name: Seq<char>,
    /// The room index, rooms in the order they were created.
    pub rooms: Seq<RoomView>,
    /// Every socket ever added; a `SocketId` is a position here.
    pub arena: Seq<SocketView>,
    /// The per-kind device index of sockets.
    pub sockets: Seq<SocketId>,
}

/// One device of a room: its name, and the identity of the device.
struct DeviceEntry {
    name: String,
    id: SocketId,
}

struct Room {
    name: String,
    devices: Vec<DeviceEntry>,
}

impl View for DeviceEntry {
    type V = (Seq<char>, SocketId);

    closed spec fn view(&self) -> (Seq<char>, SocketId) {
        (self.name@, self.id)
    }
}

impl Room {
    /// The position of the device called `name`, if the room has one.
    fn find_device(&self, name: &String) -> (r: Option<usize>)
        requires
            self@.names().no_duplicates(),
        ensures
            match r {
                Some(j) => {
                    &&& j < self@.devices.len()
                    &&& self@.names().contains(name@)
                    &&& self@.device_index(name@) == j
                },
                None => !self@.names().contains(name@),
            },
    {
        let mut i: usize = 0;
        while i < self.devices.len()
            invariant
                self@.names().no_duplicates(),
                i <= self.devices@.len(),
                forall|j: int| 0 <= j < i ==> self@.names()[j] != name@,
            decreases self.devices@.len() - i,
        {
            if self.devices[i].name == *name {
                proof {
                    assert(self@.devices[i as int].0 == name@);
                    assert(self@.names()[i as int] == name@);
                    let c = self@.device_index(name@);
                    assert(self@.names()[c] == self@.names()[i as int]);
                }
                return Some(i);
            }
            i = i + 1;
        }
        assert forall|j: int| 0 <= j < self@.names().len() implies self@.names()[j] != name@ by {}
        None
    }

    /// Removes the device called `name`, if the room has one.
    fn remove_device(&mut self, name: &String)
        requires
            old(self)@.names().no_duplicates(),
        ensures
            final(self)@ == old(self)@.without(name@),
    {
        if let Some(j) = self.find_device(name) {
            let ghost pre = self@;
            self.devices.remove(j);
            assert(self@.devices =~= pre.devices.remove(j as int));
        }
    }
}

impl View for Room {
    type V = RoomView;

    closed spec fn view(&self) -> RoomView {
        RoomView { name: self.name@, devices: self.devices@.map_values(|e: DeviceEntry| e@) }
    }
}

/// A registry of devices by room.
///
/// A room exists from the first device added to it until it is removed with
/// [`House::remove_room`]; removing its last device leaves it in place, empty.
/// Removing a room does not prune the per-kind device index: that index holds
/// every socket added, including those whose room is gone.
pub struct House {
    pub name: String,
    rooms: Vec<Room>,
    arena: Vec<Socket>,
    pub sockets: SocketStorage,
}

impl View for House {
    type V = HouseView;

    closed spec fn view(&self) -> HouseView {
        HouseView {
            name: self.name@,
            rooms: self.rooms@.map_values(|r: Room| r@),
            arena: self.arena@.map_values(|s: Socket| s@),
            sockets: self.sockets@,
        }
    }
}

impl RoomView {
    /// The names of the room's devices, in insertion order.
    pub open spec fn names(self) -> Seq<Seq<char>> {
        self.devices.map_values(|e: (Seq<char>, SocketId)| e.0)
    }

    /// The position of the device called `name` (meaningful when it is there).
    pub open spec fn device_index(self, name: Seq<char>) -> int {
        choose|j: int| 0 <= j < self.devices.len() && self.devices[j].0 == name
    }

    /// The room without its device called `name`; unchanged if it has none.
    pub open spec fn without(self, name: Seq<char>) -> RoomView {
        if self.names().contains(name) {
            RoomView { name: self.name, devices: self.devices.remove(self.device_index(name)) }
        } else {
            self
        }
    }
}

impl HouseView {
    /// The names of the rooms, in creation order.
    pub open spec fn room_names(self) -> Seq<Seq<char>> {
        self.rooms.map_values(|r: RoomView| r.name)
    }

    pub open spec fn has_room(self, room: Seq<char>) -> bool {
        exists|i: int| 0 <= i < self.rooms.len() && self.rooms[i].name == room
    }

    /// The position of `room` in the room index (meaningful when it is there).
    pub open spec fn room_index(self, room: Seq<char>) -> int {
        choose|i: int| 0 <= i < self.rooms.len() && self.rooms[i].name == room
    }

    /// The names of the devices in `room`.
    pub open spec fn device_names(self, room: Seq<char>) -> Seq<Seq<char>> {
        self.rooms[self.room_index(room)].names()
    }

    pub open spec fn has_device(self, room: Seq<char>, name: Seq<char>) -> bool {
        self.has_room(room) && self.device_names(room).contains(name)
    }

    /// Whether the device `id` is listed in some room.
    pub open spec fn is_placed(self, id: SocketId) -> bool {
        exists|i: int, j: int|
            0 <= i < self.rooms.len() && 0 <= j < self.rooms[i].devices.len()
                && #[trigger] self.rooms[i].devices[j].1 == id
    }

    /// Room names are unique, device names are unique within a room, each
    /// entry names a socket of the arena by that socket's own name, and every
    /// reading lies in its domain.
    pub open spec fn wf(self) -> bool {
        &&& self.room_names().no_duplicates()
        &&& forall|i: int| 0 <= i < self.rooms.len() ==> (#[trigger] self.rooms[i]).names().no_duplicates()
        &&& forall|i: int, j: int|
            0 <= i < self.rooms.len() && 0 <= j < self.rooms[i].devices.len() ==> {
                let e = #[trigger] self.rooms[i].devices[j];
                &&& 0 <= e.1.0 < self.arena.len()
                &&& self.arena[e.1.0 as int].name == e.0
            }
        &&& forall|k: int| 0 <= k < self.arena.len() ==> (#[trigger] self.arena[k]).voltage < VOLTAGE_LIMIT
    }

    /// The state after `entry`, a device name with its identity, is listed in
    /// `room`, which does not yet hold that name: the room is created if
    /// absent, the entry is appended to it, and the identity is appended to
    /// the socket index.
    pub open spec fn list_spec(self, room: Seq<char>, entry: (Seq<char>, SocketId)) -> HouseView {
        HouseView {
            rooms: if self.has_room(room) {
                let i = self.room_index(room);
                self.rooms.update(i, RoomView { name: room, devices: self.rooms[i].devices.push(entry) })
            } else {
                self.rooms.push(RoomView { name: room, devices: seq![entry] })
            },
            sockets: self.sockets.push(entry.1),
            ..self
        }
    }

    /// The state after the arena's device `id` is listed in `room` as well,
    /// under its own name.
    pub open spec fn place_spec(self, room: Seq<char>, id: SocketId) -> HouseView {
        self.list_spec(room, (self.arena[id.0 as int].name, id))
    }

    /// The state after `socket` is added to `room`, which does not yet hold a
    /// device of that name: it joins the arena at the next free position and
    /// is listed under that identity.
    pub open spec fn add_spec(self, room: Seq<char>, socket: SocketView) -> HouseView {
        HouseView { arena: self.arena.push(socket), ..self }.list_spec(room, (socket.name, SocketId(self.arena.len() as usize)))
    }

    /// The state after a poll that drew `readings[k]` for the socket at
    /// position `k`: every socket listed in a room takes its own reading, the
    /// others keep theirs.
    pub open spec fn poll_spec(self, readings: Seq<u32>) -> HouseView {
        HouseView {
            arena: Seq::new(
                self.arena.len(),
                |k: int|
                    if self.is_placed(SocketId(k as usize)) {
                        SocketView { name: self.arena[k].name, voltage: readings[k] as nat }
                    } else {
                        self.arena[k]
                    },
            ),
            ..self
        }
    }

    /// The state after `room` is removed; nothing changes if it is absent.
    pub open spec fn remove_room_spec(self, room: Seq<char>) -> HouseView {
        if self.has_room(room) {
            HouseView { rooms: self.rooms.remove(self.room_index(room)), ..self }
        } else {
            self
        }
    }

    /// The state after the device `id` is removed from `room`: the room loses
    /// its entry of that device's name, and the socket index loses every entry
    /// of that identity. An `id` outside the arena names no device, and then
    /// only the socket index is filtered.
    pub open spec fn remove_socket_spec(self, room: Seq<char>, id: SocketId) -> HouseView {
        HouseView {
            rooms: if self.has_room(room) && id.0 < self.arena.len() {
                let i = self.room_index(room);
                let name = self.arena[id.0 as int].name;
                self.rooms.update(i, self.rooms[i].without(name))
            } else {
                self.rooms
            },
            sockets: without_id(self.sockets, id),
            ..self
        }
    }
}

/// With unique room names, a room found at position `i` is the one `room_index` picks.
proof fn lemma_room_at(v: HouseView, room: Seq<char>, i: int)
    requires
        v.wf(),
        0 <= i < v.rooms.len(),
        v.rooms[i].name == room,
    ensures
        v.has_room(room),
        v.room_index(room) == i,
{
    let k = v.room_index(room);
    assert(v.room_names()[k] == v.room_names()[i]);
}

/// Taking one element out of a sequence without duplicates leaves none.
proof fn lemma_remove_no_duplicates<A>(s: Seq<A>, c: int)
    requires
        s.no_duplicates(),
        0 <= c < s.len(),
    ensures
        s.remove(c).no_duplicates(),
{
    let t = s.remove(c);
    assert forall|a: int, b: int| 0 <= a < t.len() && 0 <= b < t.len() && a != b implies t[a] != t[b] by {
        let oa = if a < c { a } else { a + 1 };
        let ob = if b < c { b } else { b + 1 };
        assert(s[oa] != s[ob]);
    }
}

impl House {
    pub open spec fn wf(&self) -> bool {
        self@.wf()
    }

    /// An empty house named `name`.
    pub fn new(name: &str) -> (h: House)
        ensures
            h.wf(),
            h@.name == name@,
            h@.rooms == Seq::<RoomView>::empty(),
            h@.arena == Seq::<SocketView>::empty(),
            h@.sockets == Seq::<SocketId>::empty(),
    {
        let h = House {
            name: name.to_string(),
            rooms: Vec::new(),
            arena: Vec::new(),
            sockets: SocketStorage::new(),
        };
        assert(h@.rooms =~= Seq::<RoomView>::empty());
        assert(h@.arena =~= Seq::<SocketView>::empty());
        h
    }

    /// The position of `room` in the room index, if it is there.
    fn find_room(&self, room: &String) -> (r: Option<usize>)
        requires
            self.wf(),
        ensures
            match r {
                Some(i) => i < self@.rooms.len() && self@.has_room(room@) && self@.room_index(room@) == i,
                None => !self@.has_room(room@),
            },
    {
        let mut i: usize = 0;
        while i < self.rooms.len()
            invariant
                self.wf(),
                i <= self@.rooms.len(),
                forall|j: int| 0 <= j < i ==> self@.rooms[j].name != room@,
            decreases self@.rooms.len() - i,
        {
            if self.rooms[i].name == *room {
                proof {
                    lemma_room_at(self@, room@, i as int);
                }
                return Some(i);
            }
            i = i + 1;
        }
        None
    }

    /// The names of the rooms, in creation order, each once.
    pub fn rooms(&self) -> (r: Vec<String>)
        ensures
            r@.map_values(|s: String| s@) == self@.room_names(),
    {
        let mut out: Vec<String> = Vec::new();
        let mut i: usize = 0;
        while i < self.rooms.len()
            invariant
                i <= self@.rooms.len(),
                out@.map_values(|s: String| s@) == self@.room_names().subrange(0, i as int),
            decreases self@.rooms.len() - i,
        {
            let ghost before = out@;
            let name = self.rooms[i].name.clone();
            out.push(name);
            proof {
                assert(self@.room_names()[i as int] == name@);
                assert(out@ == before.push(name));
                assert(out@.map_values(|s: String| s@) =~= before.map_values(|s: String| s@).push(name@));
                assert(out@.map_values(|s: String| s@) =~= self@.room_names().subrange(0, i + 1));
            }
            i = i + 1;
        }
        assert(self@.room_names().subrange(0, i as int) =~= self@.room_names());
        out
    }

    /// The names of the devices in `room`, in insertion order; fails with
    /// `NoSuchRoom` carrying `room` when the house has no such room.
    pub fn devices(&self, room: &str) -> (r: Result<Vec<String>, NoSuchRoom>)
        requires
            self.wf(),
        ensures
            match r {
                Ok(names) => self@.has_room(room@) && names@.map_values(|s: String| s@) == self@.device_names(room@),
                Err(e) => !self@.has_room(room@) && e.room_view() == room@,
            },
    {
        let room_s = room.to_string();
        match self.find_room(&room_s) {
            None => Err(NoSuchRoom::from(WhereAmI(room_s))),
            Some(k) => {
                let devs = &self.rooms[k].devices;
                let ghost names = self@.rooms[k as int].names();
                let mut out: Vec<String> = Vec::new();
                let mut i: usize = 0;
                while i < devs.len()
                    invariant
                        k < self@.rooms.len(),
                        devs@.map_values(|e: DeviceEntry| e@) == self@.rooms[k as int].devices,
                        i <= devs@.len(),
                        names == self@.rooms[k as int].names(),
                        names.len() == devs@.len(),
                        out@.map_values(|s: String| s@) == names.subrange(0, i as int),
                    decreases devs@.len() - i,
                {
                    let ghost before = out@;
                    let name = devs[i].name.clone();
                    out.push(name);
                    proof {
                        assert(self@.rooms[k as int].devices[i as int] == devs@[i as int]@);
                        assert(names[i as int] == name@);
                        assert(out@.map_values(|s: String| s@) =~= before.map_values(|s: String| s@).push(name@));
                        assert(out@.map_values(|s: String| s@) =~= names.subrange(0, i + 1));
                    }
                    i = i + 1;
                }
                assert(names.subrange(0, i as int) =~= names);
                Ok(out)
            },
        }
    }

    /// Lists the arena's device `id`, called `name`, in the room at position
    /// `k`, or in a new room `room` when `k` is `None`, and in the socket index.
    fn place(&mut self, k: Option<usize>, room: String, name: String, id: SocketId)
        requires
            old(self).wf(),
            id.0 < old(self)@.arena.len(),
            old(self)@.arena[id.0 as int].name == name@,
            !old(self)@.has_device(room@, name@),
            match k {
                Some(i) => i < old(self)@.rooms.len() && old(self)@.has_room(room@) && old(self)@.room_index(room@) == i,
                None => !old(self)@.has_room(room@),
            },
        ensures
            final(self).wf(),
            final(self)@ == old(self)@.list_spec(room@, (name@, id)),
    {
        let ghost pre = self@;
        let ghost entry = (name@, id);
        match k {
            Some(k) => {
                self.rooms[k].devices.push(DeviceEntry { name, id });
                proof {
                    let newr = RoomView { name: room@, devices: pre.rooms[k as int].devices.push(entry) };
                    assert(self@.rooms[k as int].devices =~= newr.devices);
                    assert(self@.rooms =~= pre.rooms.update(k as int, newr));
                    assert(self@.room_names() =~= pre.room_names());
                    assert(newr.names() =~= pre.rooms[k as int].names().push(name@));
                }
            },
            None => {
                let mut devices: Vec<DeviceEntry> = Vec::new();
                devices.push(DeviceEntry { name, id });
                self.rooms.push(Room { name: room, devices });
                proof {
                    let newr = RoomView { name: room@, devices: seq![entry] };
                    assert(self@.rooms[pre.rooms.len() as int].devices =~= newr.devices);
                    assert(self@.rooms =~= pre.rooms.push(newr));
                    assert(self@.room_names() =~= pre.room_names().push(room@));
                    assert(newr.names() =~= seq![name@]);
                }
            },
        }
        self.sockets.add(id);
        assert(self@.arena == pre.arena);
    }

    /// Adds `socket` to `room`, creating the room if it has no entry, and
    /// registers it in the socket index. Fails, changing nothing, when the room
    /// already holds a device of the same name. On success returns the new
    /// device's identity.
    pub fn add_socket_to_room(&mut self, socket: Socket, room: &str) -> (r: Result<SocketId, AlreadyContainsDevice>)
        requires
            old(self).wf(),
        ensures
            final(self).wf(),
            match r {
                Ok(id) => {
                    &&& !old(self)@.has_device(room@, socket@.name)
                    &&& id == SocketId(old(self)@.arena.len() as usize)
                    &&& final(self)@ == old(self)@.add_spec(room@, socket@)
                },
                Err(e) => {
                    &&& old(self)@.has_device(room@, socket@.name)
                    &&& e.name_view() == socket@.name
                    &&& final(self)@ == old(self)@
                },
            },
    {
        proof {
            use_type_invariant(&socket);
        }
        let ghost pre = self@;
        let room_s = room.to_string();
        let name = socket.name();
        let id = SocketId(self.arena.len());
        let k = self.find_room(&room_s);
        if let Some(i) = k {
            proof {
                assert(pre.rooms[i as int].names().no_duplicates());
            }
            if self.rooms[i].find_device(&name).is_some() {
                return Err(AlreadyContainsDevice(name));
            }
        }
        self.arena.push(socket);
        proof {
            assert(self@.arena =~= pre.arena.push(socket@));
            assert(self@ == (HouseView { arena: pre.arena.push(socket@), ..pre }));
        }
        self.place(k, room_s, name, id);
        Ok(id)
    }

    /// Lists the house's device `id` in `room` as well, under its own name,
    /// creating the room if it has no entry, and registers it in the socket
    /// index once more. Fails, changing nothing, when the room already holds a
    /// device of that name.
    pub fn add_existing_to_room(&mut self, id: SocketId, room: &str) -> (r: Result<(), AlreadyContainsDevice>)
        requires
            old(self).wf(),
            id.0 < old(self)@.arena.len(),
        ensures
            final(self).wf(),
            match r {
                Ok(()) => {
                    &&& !old(self)@.has_device(room@, old(self)@.arena[id.0 as int].name)
                    &&& final(self)@ == old(self)@.place_spec(room@, id)
                },
                Err(e) => {
                    &&& old(self)@.has_device(room@, old(self)@.arena[id.0 as int].name)
                    &&& e.name_view() == old(self)@.arena[id.0 as int].name
                    &&& final(self)@ == old(self)@
                },
            },
    {
        let ghost pre = self@;
        let room_s = room.to_string();
        let name = self.arena[id.0].name();
        let k = self.find_room(&room_s);
        if let Some(i) = k {
            proof {
                assert(pre.rooms[i as int].names().no_duplicates());
            }
            if self.rooms[i].find_device(&name).is_some() {
                return Err(AlreadyContainsDevice(name));
            }
        }
        self.place(k, room_s, name, id);
        Ok(())
    }

    /// Removes `room` and the devices listed in it; a room that is absent is
    /// no error. The socket index keeps its entries.
    pub fn remove_room(&mut self, room: &str)
        requires
            old(self).wf(),
        ensures
            final(self).wf(),
            final(self)@ == old(self)@.remove_room_spec(room@),
    {
        let ghost pre = self@;
        let room_s = room.to_string();
        if let Some(k) = self.find_room(&room_s) {
            self.rooms.remove(k);
            proof {
                assert(self@.arena == pre.arena);
                assert(self@.rooms =~= pre.rooms.remove(k as int));
                assert(self@.room_names() =~= pre.room_names().remove(k as int));
                lemma_remove_no_duplicates(pre.room_names(), k as int);
                assert forall|i: int| 0 <= i < self@.rooms.len() implies (#[trigger] self@.rooms[i]).names().no_duplicates() by {
                    let oi = if i < k { i } else { i + 1 };
                    assert(self@.rooms[i] == pre.rooms[oi]);
                }
                assert forall|i: int, j: int|
                    0 <= i < self@.rooms.len() && 0 <= j < self@.rooms[i].devices.len()
                    implies 0 <= (#[trigger] self@.rooms[i].devices[j]).1.0 < self@.arena.len()
                        && self@.arena[self@.rooms[i].devices[j].1.0 as int].name == self@.rooms[i].devices[j].0 by {
                    let oi = if i < k { i } else { i + 1 };
                    assert(self@.rooms[i] == pre.rooms[oi]);
                    assert(pre.rooms[oi].devices[j] == self@.rooms[i].devices[j]);
                }
            }
        }
    }

    /// Removes from `room` the entry under the name of device `id`, and removes
    /// every entry of identity `id` from the socket index. A missing room or
    /// device is no error. Another device of the same name, being another
    /// identity, stays in the socket index.
    pub fn remove_socket_from_room(&mut self, room: &str, id: SocketId)
        requires
            old(self).wf(),
        ensures
            final(self).wf(),
            final(self)@ == old(self)@.remove_socket_spec(room@, id),
    {
        let ghost pre = self@;
        if id.0 < self.arena.len() {
            let name = self.arena[id.0].name();
            let room_s = room.to_string();
            if let Some(k) = self.find_room(&room_s) {
                proof {
                    assert(pre.rooms[k as int].names().no_duplicates());
                }
                self.rooms[k].remove_device(&name);
                proof {
                    let old_r = pre.rooms[k as int];
                    let new_r = old_r.without(name@);
                    assert(self@.rooms =~= pre.rooms.update(k as int, new_r));
                    assert(self@.room_names() =~= pre.room_names());
                    if old_r.names().contains(name@) {
                        let c = old_r.device_index(name@);
                        assert(new_r.names() =~= old_r.names().remove(c));
                        lemma_remove_no_duplicates(old_r.names(), c);
                        assert forall|j: int| 0 <= j < new_r.devices.len()
                            implies 0 <= (#[trigger] new_r.devices[j]).1.0 < pre.arena.len()
                                && pre.arena[new_r.devices[j].1.0 as int].name == new_r.devices[j].0 by {
                            let oj = if j < c { j } else { j + 1 };
                            assert(new_r.devices[j] == old_r.devices[oj]);
                        }
                    }
                }
            }
        }
        self.sockets.remove(id);
        assert(self@.arena == pre.arena);
    }

    /// Gives every socket listed in a room the reading drawn for its
    /// position, `readings[k]` for the socket at `k`; names, rooms, the socket
    /// index and every socket that no room lists are unchanged.
    pub fn poll_with(&mut self, readings: &Vec<u32>)
        requires
            old(self).wf(),
            readings@.len() == old(self)@.arena.len(),
            forall|k: int| 0 <= k < readings@.len() ==> readings@[k] < VOLTAGE_LIMIT,
        ensures
            final(self).wf(),
            final(self)@ == old(self)@.poll_spec(readings@),
    {
        let ghost pre = self@;
        let ghost target = pre.poll_spec(readings@).arena;
        let mut i: usize = 0;
        while i < self.rooms.len()
            invariant
                self.wf(),
                pre.wf(),
                readings@.len() == pre.arena.len(),
                forall|k: int| 0 <= k < readings@.len() ==> readings@[k] < VOLTAGE_LIMIT,
                target == pre.poll_spec(readings@).arena,
                i <= self@.rooms.len(),
                self@ == (HouseView { arena: self@.arena, ..pre }),
                self@.arena.len() == pre.arena.len(),
                forall|k: int| 0 <= k < self@.arena.len() ==> #[trigger] self@.arena[k] == pre.arena[k] || self@.arena[k] == target[k],
                forall|a: int, b: int| 0 <= a < i && 0 <= b < pre.rooms[a].devices.len()
                    ==> self@.arena[(#[trigger] pre.rooms[a].devices[b]).1.0 as int] == target[pre.rooms[a].devices[b].1.0 as int],
            decreases self@.rooms.len() - i,
        {
            let mut j: usize = 0;
            while j < self.rooms[i].devices.len()
                invariant
                    self.wf(),
                    pre.wf(),
                    readings@.len() == pre.arena.len(),
                    forall|k: int| 0 <= k < readings@.len() ==> readings@[k] < VOLTAGE_LIMIT,
                    target == pre.poll_spec(readings@).arena,
                    i < self@.rooms.len(),
                    j <= self@.rooms[i as int].devices.len(),
                    self@ == (HouseView { arena: self@.arena, ..pre }),
                    self@.arena.len() == pre.arena.len(),
                    forall|k: int| 0 <= k < self@.arena.len() ==> #[trigger] self@.arena[k] == pre.arena[k] || self@.arena[k] == target[k],
                    forall|a: int, b: int| 0 <= a < i && 0 <= b < pre.rooms[a].devices.len()
                        ==> self@.arena[(#[trigger] pre.rooms[a].devices[b]).1.0 as int] == target[pre.rooms[a].devices[b].1.0 as int],
                    forall|b: int| 0 <= b < j
                        ==> self@.arena[(#[trigger] pre.rooms[i as int].devices[b]).1.0 as int] == target[pre.rooms[i as int].devices[b].1.0 as int],
                decreases self@.rooms[i as int].devices.len() - j,
            {
                let id = self.rooms[i].devices[j].id;
                let ghost before = self@;
                proof {
                    assert(pre.rooms[i as int].devices[j as int].1 == id);
                    assert(pre.is_placed(id));
                    assert(target[id.0 as int] == (SocketView { name: pre.arena[id.0 as int].name, voltage: readings@[id.0 as int] as nat }));
                }
                self.arena[id.0].set_voltage(readings[id.0]);
                proof {
                    assert(self@.arena =~= before.arena.update(id.0 as int, target[id.0 as int]));
                    assert(self@.rooms == before.rooms);
                    assert forall|k: int| 0 <= k < self@.arena.len() implies (#[trigger] self@.arena[k]).voltage < VOLTAGE_LIMIT by {
                        if k != id.0 as int {
                            assert(self@.arena[k] == before.arena[k]);
                        }
                    }
                    assert forall|k: int| 0 <= k < self@.arena.len() implies #[trigger] self@.arena[k] == pre.arena[k] || self@.arena[k] == target[k] by {
                        if k != id.0 as int {
                            assert(self@.arena[k] == before.arena[k]);
                        }
                    }
                }
                j = j + 1;
            }
            i = i + 1;
        }
        let n = self.arena.len();
        proof {
            assert forall|k: int| 0 <= k < self@.arena.len() implies #[trigger] self@.arena[k] == target[k] by {
                assert(k < n);
                if pre.is_placed(SocketId(k as usize)) {
                    let (a, b) = choose|a: int, b: int|
                        0 <= a < pre.rooms.len() && 0 <= b < pre.rooms[a].devices.len()
                            && #[trigger] pre.rooms[a].devices[b].1 == SocketId(k as usize);
                    assert(pre.rooms[a].devices[b].1.0 as int == k);
                } else {
                    assert(target[k] == pre.arena[k]);
                }
            }
            assert(self@.arena =~= target);
        }
    }

    /// Draws a fresh reading for every socket and gives it to each one listed
    /// in a room (see `poll_with`).
    pub fn poll(&mut self)
        requires
            old(self).wf(),
        ensures
            final(self).wf(),
            exists|readings: Seq<u32>|
                {
                    &&& readings.len() == old(self)@.arena.len()
                    &&& forall|k: int| 0 <= k < readings.len() ==> readings[k] < VOLTAGE_LIMIT
                    &&& final(self)@ == old(self)@.poll_spec(readings)
                },
    {
        let mut readings: Vec<u32> = Vec::new();
        let mut k: usize = 0;
        while k < self.arena.len()
            invariant
                k <= self@.arena.len(),
                readings@.len() == k,
                forall|m: int| 0 <= m < k ==> readings@[m] < VOLTAGE_LIMIT,
            decreases self@.arena.len() - k,
        {
            readings.push(random_below(VOLTAGE_LIMIT));
            k = k + 1;
        }
        self.poll_with(&readings);
    }

    /// The socket of identity `id`, if this house holds one.
    pub fn socket(&self, id: SocketId) -> (r: Option<&Socket>)
        ensures
            match r {
                Some(s) => id.0 < self@.arena.len() && s@ == self@.arena[id.0 as int],
                None => id.0 >= self@.arena.len(),
            },
    {
        if id.0 < self.arena.len() {
            Some(&self.arena[id.0])
        } else {
            None
        }
    }

    /// The identity of the device called `name` in `room`, if there is one.
    pub fn device_id(&self, room: &str, name: &str) -> (r: Option<SocketId>)
        requires
            self.wf(),
        ensures
            match r {
                Some(id) => {
                    &&& self@.has_device(room@, name@)
                    &&& self@.rooms[self@.room_index(room@)].devices[self@.rooms[self@.room_index(room@)].device_index(name@)].1 == id
                },
                None => !self@.has_device(room@, name@),
            },
    {
        let room_s = room.to_string();
        let name_s = name.to_string();
        match self.find_room(&room_s) {
            None => None,
            Some(k) => {
                proof {
                    assert(self@.rooms[k as int].names().no_duplicates());
                }
                match self.rooms[k].find_device(&name_s) {
                    None => None,
                    Some(j) => Some(self.rooms[k].devices[j].id),
                }
            },
        }
    }
}

} // verus!
