//! The OneBot protocol: messages, events, actions and what to do with them.
use vstd::prelude::*;

pub mod model;
pub mod media;
pub mod display;
pub mod cq;
pub mod protocol;
pub mod event;
pub mod context;
pub mod hooks;
pub mod business;
pub mod connection;
pub mod application;
pub mod transport;
pub mod api;

verus! {

/// The way to the implementations.
pub fn api() -> (r: api::OneBotApi)
    ensures
        r == (api::OneBotApi {}),
{
    api::OneBotApi::global()
}

} // verus!
