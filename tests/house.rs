use smart_home::{Device, House, NoSuchRoom, Socket, SocketId, SocketStorage, WhereAmI, VOLTAGE_LIMIT};

fn sorted(mut v: Vec<String>) -> Vec<String> {
    v.sort();
    v
}

#[test]
fn end_to_end_scenario() {
    let mut house = House::new("H");
    assert!(house.add_socket_to_room(Socket::new("A"), "bedroom").is_ok());
    assert!(house.add_socket_to_room(Socket::new("B"), "bedroom").is_ok());
    let err = house.add_socket_to_room(Socket::new("A"), "bedroom").unwrap_err();
    assert_eq!(err.0, "A");
    assert_eq!(sorted(house.devices("bedroom").unwrap()), vec!["A".to_string(), "B".to_string()]);
    assert_eq!(house.rooms(), vec!["bedroom".to_string()]);
    house.remove_room("bedroom");
    assert!(house.rooms().is_empty());
    let err = house.devices("bedroom").unwrap_err();
    assert_eq!(err.0 .0, "bedroom");
}

#[test]
fn duplicate_name_rejected_room_unchanged() {
    let mut house = House::new("H");
    let first = house.add_socket_to_room(Socket::new("n"), "r").unwrap();
    let before_index = house.sockets.ids();
    let err = house.add_socket_to_room(Socket::new("n"), "r").unwrap_err();
    assert_eq!(err.0, "n");
    assert_eq!(house.devices("r").unwrap(), vec!["n".to_string()]);
    assert_eq!(house.sockets.ids(), before_index);
    assert_eq!(house.device_id("r", "n"), Some(first));
}

#[test]
fn same_name_in_different_rooms_is_accepted() {
    let mut house = House::new("H");
    let a = house.add_socket_to_room(Socket::new("lamp"), "hall").unwrap();
    let b = house.add_socket_to_room(Socket::new("lamp"), "attic").unwrap();
    assert_ne!(a, b);
    assert_eq!(house.rooms(), vec!["hall".to_string(), "attic".to_string()]);
    assert_eq!(house.sockets.ids(), vec![a, b]);
}

#[test]
fn devices_of_unknown_room_fails() {
    let mut house = House::new("H");
    let err = house.devices("cellar").unwrap_err();
    assert_eq!(err.0 .0, "cellar");
    house.add_socket_to_room(Socket::new("x"), "kitchen").unwrap();
    let err = house.devices("cellar").unwrap_err();
    assert_eq!(err.0 .0, "cellar");
}

#[test]
fn remove_room_twice_is_noop() {
    let mut house = House::new("H");
    house.add_socket_to_room(Socket::new("x"), "kitchen").unwrap();
    house.add_socket_to_room(Socket::new("y"), "hall").unwrap();
    house.remove_room("kitchen");
    let after_first = house.rooms();
    assert_eq!(after_first, vec!["hall".to_string()]);
    house.remove_room("kitchen");
    assert_eq!(house.rooms(), after_first);
}

#[test]
fn remove_unknown_room_is_noop() {
    let mut house = House::new("H");
    house.remove_room("nowhere");
    assert!(house.rooms().is_empty());
    house.add_socket_to_room(Socket::new("x"), "kitchen").unwrap();
    house.remove_room("nowhere");
    assert_eq!(house.rooms(), vec!["kitchen".to_string()]);
}

#[test]
fn remove_room_keeps_socket_index() {
    let mut house = House::new("H");
    let id = house.add_socket_to_room(Socket::new("x"), "kitchen").unwrap();
    house.remove_room("kitchen");
    assert!(house.sockets.contains(id));
}

#[test]
fn poll_keeps_readings_in_domain() {
    let mut house = House::new("H");
    let mut ids = Vec::new();
    for i in 0..20 {
        let name = format!("s{}", i);
        ids.push(house.add_socket_to_room(Socket::new(&name), "lab").unwrap());
    }
    let before: Vec<u32> = ids.iter().map(|id| house.socket(*id).unwrap().voltage()).collect();
    house.poll();
    let after: Vec<u32> = ids.iter().map(|id| house.socket(*id).unwrap().voltage()).collect();
    for (i, id) in ids.iter().enumerate() {
        let s = house.socket(*id).unwrap();
        assert!(s.voltage() < VOLTAGE_LIMIT);
        assert_eq!(s.name(), format!("s{}", i));
    }
    assert_ne!(before, after);
    assert_eq!(house.devices("lab").unwrap().len(), 20);
}

#[test]
fn remove_socket_by_identity_keeps_namesake() {
    let mut house = House::new("H");
    let a = house.add_socket_to_room(Socket::new("lamp"), "hall").unwrap();
    let b = house.add_socket_to_room(Socket::new("lamp"), "attic").unwrap();
    house.remove_socket_from_room("hall", a);
    assert!(house.devices("hall").unwrap().is_empty());
    assert_eq!(house.devices("attic").unwrap(), vec!["lamp".to_string()]);
    assert_eq!(house.device_id("attic", "lamp"), Some(b));
    assert_eq!(house.sockets.ids(), vec![b]);
}

#[test]
fn removing_last_device_keeps_empty_room() {
    let mut house = House::new("H");
    let a = house.add_socket_to_room(Socket::new("x"), "hall").unwrap();
    house.remove_socket_from_room("hall", a);
    assert_eq!(house.rooms(), vec!["hall".to_string()]);
    assert_eq!(house.devices("hall").unwrap(), Vec::<String>::new());
    assert!(house.add_socket_to_room(Socket::new("x"), "hall").is_ok());
}

#[test]
fn remove_socket_from_missing_room_still_prunes_index() {
    let mut house = House::new("H");
    let a = house.add_socket_to_room(Socket::new("x"), "hall").unwrap();
    house.remove_socket_from_room("cellar", a);
    assert_eq!(house.devices("hall").unwrap(), vec!["x".to_string()]);
    assert!(!house.sockets.contains(a));
}

#[test]
fn remove_unknown_socket_is_noop() {
    let mut house = House::new("H");
    house.add_socket_to_room(Socket::new("x"), "hall").unwrap();
    house.remove_socket_from_room("hall", SocketId(7));
    assert_eq!(house.devices("hall").unwrap(), vec!["x".to_string()]);
    assert_eq!(house.sockets.ids().len(), 1);
}

#[test]
fn device_id_and_socket_lookup() {
    let mut house = House::new("H");
    let a = house.add_socket_to_room(Socket::new("x"), "hall").unwrap();
    assert_eq!(a, SocketId(0));
    assert_eq!(house.device_id("hall", "x"), Some(a));
    assert_eq!(house.device_id("hall", "y"), None);
    assert_eq!(house.device_id("attic", "x"), None);
    assert_eq!(house.socket(a).unwrap().name(), "x");
    assert!(house.socket(SocketId(1)).is_none());
    assert_eq!(house.name, "H");
}

#[test]
fn socket_new_samples_in_range() {
    for _ in 0..50 {
        let s = Socket::new("probe");
        assert_eq!(s.name(), "probe");
        assert!(s.voltage() < VOLTAGE_LIMIT);
    }
}

#[test]
fn socket_poll_samples_in_range() {
    let mut s = Socket::new("probe");
    let mut seen = std::collections::BTreeSet::new();
    for _ in 0..50 {
        s.poll();
        assert!(s.voltage() < VOLTAGE_LIMIT);
        seen.insert(s.voltage());
    }
    assert_eq!(s.name(), "probe");
    assert!(seen.len() > 1);
}

#[test]
fn storage_add_remove_by_identity() {
    let mut st = SocketStorage::default();
    assert!(st.ids().is_empty());
    st.add(SocketId(1));
    st.add(SocketId(2));
    st.add(SocketId(1));
    st.add(SocketId(3));
    st.remove(SocketId(1));
    assert_eq!(st.ids(), vec![SocketId(2), SocketId(3)]);
    assert!(!st.contains(SocketId(1)));
    assert!(st.contains(SocketId(3)));
    st.remove(SocketId(9));
    assert_eq!(st.ids(), vec![SocketId(2), SocketId(3)]);
    assert!(SocketStorage::new().ids().is_empty());
}

#[test]
fn no_such_room_from_where_am_i() {
    let e = NoSuchRoom::from(WhereAmI("den".to_string()));
    assert_eq!(e.0 .0, "den");
}

#[test]
fn socket_with_voltage_and_set_voltage() {
    let mut s = Socket::with_voltage("kettle", 23012);
    assert_eq!(s.name(), "kettle");
    assert_eq!(s.voltage(), 23012);
    s.set_voltage(0);
    assert_eq!(s.voltage(), 0);
    s.set_voltage(VOLTAGE_LIMIT - 1);
    assert_eq!(s.voltage(), 37999);
    assert_eq!(s.name(), "kettle");
}

#[test]
fn poll_with_sets_listed_sockets_only() {
    let mut house = House::new("H");
    let a = house.add_socket_to_room(Socket::with_voltage("a", 100), "hall").unwrap();
    let b = house.add_socket_to_room(Socket::with_voltage("b", 200), "attic").unwrap();
    let c = house.add_socket_to_room(Socket::with_voltage("c", 300), "attic").unwrap();
    house.remove_socket_from_room("attic", c);
    house.poll_with(&vec![11, 22, 33]);
    assert_eq!(house.socket(a).unwrap().voltage(), 11);
    assert_eq!(house.socket(b).unwrap().voltage(), 22);
    assert_eq!(house.socket(c).unwrap().voltage(), 300);
    assert_eq!(house.socket(b).unwrap().name(), "b");
    assert_eq!(house.rooms(), vec!["hall".to_string(), "attic".to_string()]);
}

#[test]
fn poll_leaves_removed_room_devices_alone() {
    let mut house = House::new("H");
    let a = house.add_socket_to_room(Socket::with_voltage("a", 1234), "hall").unwrap();
    house.remove_room("hall");
    house.poll();
    assert_eq!(house.socket(a).unwrap().voltage(), 1234);
}

#[test]
fn add_existing_to_second_room_shares_readings() {
    let mut house = House::new("H");
    let a = house.add_socket_to_room(Socket::with_voltage("a", 5), "hall").unwrap();
    assert!(house.add_existing_to_room(a, "attic").is_ok());
    assert_eq!(house.rooms(), vec!["hall".to_string(), "attic".to_string()]);
    assert_eq!(house.device_id("attic", "a"), Some(a));
    assert_eq!(house.sockets.ids(), vec![a, a]);
    house.poll_with(&vec![77]);
    assert_eq!(house.socket(a).unwrap().voltage(), 77);
    house.remove_socket_from_room("hall", a);
    assert!(house.devices("hall").unwrap().is_empty());
    assert_eq!(house.devices("attic").unwrap(), vec!["a".to_string()]);
    assert!(!house.sockets.contains(a));
}

#[test]
fn add_existing_rejects_duplicate_name() {
    let mut house = House::new("H");
    let a = house.add_socket_to_room(Socket::new("a"), "hall").unwrap();
    let other = house.add_socket_to_room(Socket::new("a"), "attic").unwrap();
    let err = house.add_existing_to_room(other, "hall").unwrap_err();
    assert_eq!(err.0, "a");
    assert_eq!(house.device_id("hall", "a"), Some(a));
    assert_eq!(house.sockets.ids(), vec![a, other]);
    let err = house.add_existing_to_room(a, "hall").unwrap_err();
    assert_eq!(err.0, "a");
}
