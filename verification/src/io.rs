//! The decisions of the IO drivers for PUB and RADIO connections.
//!
//! A driver owns a transport and does what its core tells it to: it reads, it
//! writes, and it reports back. The cores hold the buffers and decide.
//!
//! - [`driver`]: one step at a time, for drivers that await their transport
//! - [`blocking`]: one poll at a time, for drivers that block on their transport
//! - [`laws`]: what holds across the steps and polls of a driver
//! - [`follow`] and [`poll_follow`]: what a step or a poll comes to, from what feeding does
//! - [`pieces`] and [`poll_pieces`]: handshakes whose bytes come in pieces

pub mod blocking;
pub mod driver;
pub mod follow;
pub mod laws;
pub mod pieces;
pub mod poll_follow;
pub mod poll_pieces;
pub mod rx;
