//! A Vuvuzela-style mixnet core: onion key derivation and authenticated
//! encryption, fixed-size message packing with deaddrop rendezvous tags,
//! random batch permutations, the per-server forward/backward mix transform
//! with differential-privacy dummy traffic, the terminal deaddrop matcher,
//! and the round-synchronization state machine.

pub mod client_util;
pub mod codec;
pub mod keys;
pub mod message;
pub mod onion;
pub mod permute;
pub mod round;
pub mod util;
