use crate::device::SocketView;
use crate::house::HouseView;
use crate::storage::{other_than, without_id, SocketId};
use vstd::prelude::*;

verus! {

/// Once `first` has been added to `room`, the room holds a device of that
/// name, so a second add of any device with the same name is refused and
/// leaves the house unchanged (see `House::add_socket_to_room`). The room's
/// device names are its earlier ones followed by that name, just that name
/// when the room was new.
pub proof fn lemma_duplicate_name_rejected(h: HouseView, room: Seq<char>, first: SocketView)
    requires
        h.wf(),
        !h.has_device(room, first.name),
    ensures
        h.add_spec(room, first).has_device(room, first.name),
        h.add_spec(room, first).device_names(room) == if h.has_room(room) {
            h.device_names(room).push(first.name)
        } else {
            seq![first.name]
        },
{
    let h1 = h.add_spec(room, first);
    let mid = HouseView { arena: h.arena.push(first), ..h };
    assert(mid.rooms == h.rooms);
    assert(mid.has_room(room) == h.has_room(room));
    assert(mid.room_index(room) == h.room_index(room));
    if h.has_room(room) {
        let i = h.room_index(room);
        assert(h1.rooms[i].name == room);
        assert(h1.room_names() =~= h.room_names());
        let k = h1.room_index(room);
        assert(h1.room_names()[k] == h1.room_names()[i]);
        assert(k == i);
        assert(h1.rooms[i].devices == h.rooms[i].devices.push((first.name, SocketId(h.arena.len() as usize))));
        assert(h1.rooms[i].names() =~= h.rooms[i].names().push(first.name));
        assert(h1.device_names(room) =~= h.device_names(room).push(first.name));
        assert(h1.device_names(room).last() == first.name);
    } else {
        let i = h.rooms.len() as int;
        assert(h1.rooms[i].name == room);
        let k = h1.room_index(room);
        if k < i {
            assert(h.rooms[k].name == room);
        }
        assert(k == i);
        assert(h1.rooms[i].devices == seq![(first.name, SocketId(h.arena.len() as usize))]);
        assert(h1.rooms[i].names() =~= seq![first.name]);
        assert(h1.device_names(room) =~= seq![first.name]);
        assert(h1.device_names(room)[0] == first.name);
    }
}

/// Listing an entry in `other` leaves the presence of any other room as it was.
proof fn lemma_list_keeps_other_rooms(h: HouseView, room: Seq<char>, other: Seq<char>, entry: (Seq<char>, SocketId))
    requires
        room != other,
    ensures
        h.list_spec(other, entry).has_room(room) == h.has_room(room),
{
    let ha = h.list_spec(other, entry);
    if h.has_room(other) {
        assert(ha.room_names() =~= h.room_names());
    } else {
        assert(ha.room_names() =~= h.room_names().push(other));
    }
    if ha.has_room(room) {
        let j = choose|j: int| 0 <= j < ha.rooms.len() && ha.rooms[j].name == room;
        assert(ha.room_names()[j] == room);
        assert(h.rooms[j].name == room);
    }
    if h.has_room(room) {
        let j = choose|j: int| 0 <= j < h.rooms.len() && h.rooms[j].name == room;
        assert(h.room_names()[j] == room);
        assert(ha.rooms[j].name == room);
    }
}

/// No single step but an add to `room` makes `room` present: listing a
/// device in another room, adding a new device there, removing a room,
/// removing a device, or polling.
pub proof fn lemma_room_present_only_if_added(
    h: HouseView,
    room: Seq<char>,
    other: Seq<char>,
    entry: (Seq<char>, SocketId),
    socket: SocketView,
    id: SocketId,
    readings: Seq<u32>,
)
    requires
        room != other,
    ensures
        h.rooms.len() == 0 ==> !h.has_room(room),
        h.list_spec(other, entry).has_room(room) == h.has_room(room),
        h.add_spec(other, socket).has_room(room) == h.has_room(room),
        h.remove_room_spec(other).has_room(room) ==> h.has_room(room),
        h.remove_socket_spec(other, id).has_room(room) == h.has_room(room),
        h.poll_spec(readings).has_room(room) == h.has_room(room),
{
    lemma_list_keeps_other_rooms(h, room, other, entry);
    let mid = HouseView { arena: h.arena.push(socket), ..h };
    lemma_list_keeps_other_rooms(mid, room, other, (socket.name, SocketId(h.arena.len() as usize)));
    assert(mid.has_room(room) == h.has_room(room));
    assert(h.poll_spec(readings).rooms == h.rooms);
    let hr = h.remove_room_spec(other);
    if h.has_room(other) && hr.has_room(room) {
        let k = h.room_index(other);
        let j = choose|j: int| 0 <= j < hr.rooms.len() && hr.rooms[j].name == room;
        let oj = if j < k { j } else { j + 1 };
        assert(h.rooms[oj].name == room);
    }
    let hs = h.remove_socket_spec(other, id);
    if h.has_room(other) && id.0 < h.arena.len() {
        let i = h.room_index(other);
        let r = h.rooms[i];
        assert(r.without(h.arena[id.0 as int].name).name == r.name);
        assert(hs.room_names() =~= h.room_names());
        if hs.has_room(room) {
            let j = choose|j: int| 0 <= j < hs.rooms.len() && hs.rooms[j].name == room;
            assert(hs.room_names()[j] == room);
            assert(h.rooms[j].name == room);
        }
        if h.has_room(room) {
            let j = choose|j: int| 0 <= j < h.rooms.len() && h.rooms[j].name == room;
            assert(h.room_names()[j] == room);
            assert(hs.rooms[j].name == room);
        }
    } else {
        assert(hs.rooms == h.rooms);
    }
}

/// Removing a room takes it out of the house; removing it again, or removing
/// a room that is absent, changes nothing.
pub proof fn lemma_remove_room_idempotent(h: HouseView, room: Seq<char>)
    requires
        h.wf(),
    ensures
        !h.remove_room_spec(room).has_room(room),
        h.remove_room_spec(room).remove_room_spec(room) == h.remove_room_spec(room),
        !h.has_room(room) ==> h.remove_room_spec(room) == h,
{
    let h1 = h.remove_room_spec(room);
    if h.has_room(room) {
        let k = h.room_index(room);
        if h1.has_room(room) {
            let j = choose|j: int| 0 <= j < h1.rooms.len() && h1.rooms[j].name == room;
            let oj = if j < k { j } else { j + 1 };
            assert(h.rooms[oj].name == room);
            assert(h.room_names()[oj] == h.room_names()[k]);
        }
    }
}

/// Removing device `id` from `room` leaves every other room as it was, even
/// one holding a different device of the same name, and keeps every other
/// identity in the socket index.
pub proof fn lemma_remove_socket_targets_one_device(
    h: HouseView,
    room: Seq<char>,
    id: SocketId,
    other_room: Seq<char>,
    other_id: SocketId,
)
    requires
        h.wf(),
        room != other_room,
        id != other_id,
    ensures
        h.remove_socket_spec(room, id).has_room(other_room) == h.has_room(other_room),
        h.has_room(other_room) ==> h.remove_socket_spec(room, id).rooms[h.remove_socket_spec(room, id).room_index(other_room)]
            == h.rooms[h.room_index(other_room)],
        h.remove_socket_spec(room, id).sockets.contains(other_id) == h.sockets.contains(other_id),
{
    let h1 = h.remove_socket_spec(room, id);
    lemma_room_present_only_if_added(h, other_room, room, (other_room, id), SocketView { name: other_room, voltage: 0 }, id, Seq::empty());
    if h.has_room(other_room) {
        let j = h.room_index(other_room);
        if h.has_room(room) && id.0 < h.arena.len() {
            let i = h.room_index(room);
            let r = h.rooms[i];
            assert(r.without(h.arena[id.0 as int].name).name == r.name);
            assert(h1.room_names() =~= h.room_names());
            assert(i != j);
            assert(h1.rooms[j] == h.rooms[j]);
            let k = h1.room_index(other_room);
            assert(h1.room_names()[k] == h1.room_names()[j]);
        }
    }
    let f = without_id(h.sockets, id);
    if f.contains(other_id) {
        h.sockets.lemma_filter_contains_rev(other_than(id), other_id);
    }
    if h.sockets.contains(other_id) {
        let j = choose|j: int| 0 <= j < h.sockets.len() && h.sockets[j] == other_id;
        h.sockets.filter_lemma(other_than(id));
        assert(f.contains(h.sockets[j]));
    }
}

/// One operation on a house, as its caller sees it.
pub enum HouseOp {
    /// `add_socket_to_room` of a new socket.
    Add(Seq<char>, SocketView),
    /// `add_existing_to_room` of the device at this position of the arena.
    AddExisting(Seq<char>, SocketId),
    RemoveRoom(Seq<char>),
    RemoveSocket(Seq<char>, SocketId),
    /// A poll that drew these readings.
    Poll(Seq<u32>),
}

/// Whether `op` adds a device to `room`.
pub open spec fn adds_to(op: HouseOp, room: Seq<char>) -> bool {
    match op {
        HouseOp::Add(r, _) => r == room,
        HouseOp::AddExisting(r, _) => r == room,
        _ => false,
    }
}

/// The state after `op`; a refused add leaves the house unchanged.
pub open spec fn step(h: HouseView, op: HouseOp) -> HouseView {
    match op {
        HouseOp::Add(r, s) => if h.has_device(r, s.name) { h } else { h.add_spec(r, s) },
        HouseOp::AddExisting(r, id) => if h.has_device(r, h.arena[id.0 as int].name) { h } else { h.place_spec(r, id) },
        HouseOp::RemoveRoom(r) => h.remove_room_spec(r),
        HouseOp::RemoveSocket(r, id) => h.remove_socket_spec(r, id),
        HouseOp::Poll(readings) => h.poll_spec(readings),
    }
}

/// The state after the operations `ops`, in order.
pub open spec fn run(h: HouseView, ops: Seq<HouseOp>) -> HouseView
    decreases ops.len(),
{
    if ops.len() == 0 {
        h
    } else {
        step(run(h, ops.drop_last()), ops.last())
    }
}

/// Starting from a house with no room, as `House::new` makes it, a room that
/// no operation adds to is never present, so looking it up fails with
/// `NoSuchRoom` carrying its name (see `House::devices`).
pub proof fn lemma_never_added_room_absent(h: HouseView, ops: Seq<HouseOp>, room: Seq<char>)
    requires
        h.rooms.len() == 0,
        forall|i: int| 0 <= i < ops.len() ==> !adds_to(#[trigger] ops[i], room),
    ensures
        !run(h, ops).has_room(room),
    decreases ops.len(),
{
    if ops.len() == 0 {
        assert(!h.has_room(room));
    } else {
        let prev = ops.drop_last();
        assert forall|i: int| 0 <= i < prev.len() implies !adds_to(#[trigger] prev[i], room) by {
            assert(prev[i] == ops[i]);
        }
        lemma_never_added_room_absent(h, prev, room);
        let g = run(h, prev);
        assert(!adds_to(ops[ops.len() - 1], room));
        let any = SocketView { name: room, voltage: 0 };
        match ops.last() {
            HouseOp::Add(r, s) => {
                lemma_room_present_only_if_added(g, room, r, (r, SocketId(0)), s, SocketId(0), Seq::empty());
            },
            HouseOp::AddExisting(r, id) => {
                lemma_room_present_only_if_added(g, room, r, (g.arena[id.0 as int].name, id), any, id, Seq::empty());
            },
            HouseOp::RemoveRoom(r) => {
                if r != room {
                    lemma_room_present_only_if_added(g, room, r, (r, SocketId(0)), any, SocketId(0), Seq::empty());
                }
            },
            HouseOp::RemoveSocket(r, id) => {
                if r != room {
                    lemma_room_present_only_if_added(g, room, r, (r, SocketId(0)), any, id, Seq::empty());
                } else {
                    assert(g.remove_socket_spec(r, id).rooms == g.rooms);
                }
            },
            HouseOp::Poll(readings) => {
                assert(g.poll_spec(readings).rooms == g.rooms);
            },
        }
    }
}

} // verus!
