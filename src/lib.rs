//! An in-memory registry of smart-home devices grouped by room.
//!
//! Devices live in an arena owned by the house and are addressed by a stable
//! [`SocketId`]; the room index and the per-kind device index both refer to a
//! device through that id, so a poll is seen from every place that refers to it.
pub mod device;
pub mod error;
pub mod house;
pub mod laws;
pub mod storage;

pub use device::{Device, Socket, SocketView, VOLTAGE_LIMIT};
pub use error::{AlreadyContainsDevice, NoSuchRoom, WhereAmI};
pub use house::{House, HouseView, RoomView};
pub use storage::{other_than, without_id, SocketId, SocketStorage};
