//! Space Engineers data structures and network wire format.
pub mod bcl;
pub mod bits;
pub mod collections;
pub mod compression;
pub mod math;
pub mod nullable;
pub mod packet;
pub mod wire;
pub mod rpc;
pub mod server_data;
pub mod state_groups;
pub mod replication;
pub mod control;
pub mod direction;
pub mod version;
