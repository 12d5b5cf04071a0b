//! Live breakout rooms: a registry of rooms, each with a roster of
//! participants, a reveal flag for its current voting round and a
//! broadcast fanout that pushes every change to the connected clients.
use vstd::prelude::*;

pub mod breakout;
pub mod breakout_channel;
pub mod context;
pub mod event;
pub mod extract;
pub mod fanout;
pub mod laws;
pub mod pagination;
pub mod rbac;
pub mod registry;
pub mod services;
pub mod text;
pub mod user;
pub mod validation;

verus! {

} // verus!
