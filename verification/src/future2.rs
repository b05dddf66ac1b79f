//! The single awaited reply, under the name that the newer asynchronous interface uses.

pub use crate::future::Pong;
