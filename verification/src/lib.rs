//! A virtual patch cable between the audio processors of one process.
//!
//! A sending processor stores its block, sample by sample, in the rings of
//! the bundle that a registry keeps under its routing key; a returning
//! processor on the same key reads the frames back a fixed number of frames
//! later. Samples are raw 32-bit words: the bit patterns of the host's
//! samples.
//!
//! The registry is handed to each call by exclusive reference. A host that
//! runs its processors on several threads keeps the registry behind a lock
//! and holds the lock for the length of a call.

pub mod arith;
pub mod block;
pub mod channel_ring;
pub mod laws;
pub mod processor;
pub mod registry;
pub mod ring;
