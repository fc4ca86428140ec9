pub mod bytes;
pub mod daemon;
pub mod error;
pub mod ipc;
pub mod ipc_msgs;
pub mod mem_object;
pub mod pmbus;
pub mod system;
pub mod utf8;
