//! Energy costs of swarm operations, in abstract energy units: predicting
//! is cheap (sparse spiking), transmitting is expensive.
use vstd::prelude::*;

verus! {

/// Sparse event-driven prediction.
pub const PREDICT: u32 = 1;

/// Radio transmission of a gossip packet.
pub const GOSSIP_SEND: u32 = 50;

/// Processing of an incoming packet.
pub const GOSSIP_RECEIVE: u32 = 20;

/// Weight update.
pub const ADAPT: u32 = 25;

/// Energy recovered per calm tick.
pub const RECHARGE_RATE: u32 = 5;

/// Low-cost proof-of-life packet.
pub const HEARTBEAT: u32 = 5;

} // verus!
