//! Sensor node core: a DHT11 single-wire decoder, a single-slot freshness
//! mailbox, and the stage that fuses humidity with pressure and temperature
//! readings into one normalized record.
use vstd::prelude::*;

pub mod dht11;
pub mod fusion;
pub mod mailbox;

verus! {

} // verus!
