//! A `no_alloc` ZMTP 3.1 PUB/RADIO library: sans-IO state machines for one peer,
//! with their behaviour stated in contracts and proved.

pub mod auth;
pub mod bytes;
pub mod command;
pub mod connection;
pub mod entries;
pub mod frame;
pub mod greeting;
pub mod group_table;
pub mod io;
pub mod laws;
pub mod null;
pub mod operations;
pub mod plain;
pub mod promises;
pub mod radio_connection;
pub mod registry;
pub mod session;
pub mod sub_table;
