//! Session-pool coordinator and track-negotiation core for a WebRTC
//! selective-forwarding relay.
//!
//! The crate models every decision the relay makes — which sessions live in
//! the pool, how tracks are mirrored and negotiated between peers, how media
//! and keyframe requests are fanned out, and when degraded connections get a
//! recovery attempt. The transport engine and all sockets stay outside; the
//! host process feeds plain events in and executes the returned actions.

pub mod client;
pub mod errors;
pub mod health;
pub mod payload;
pub mod pool;
pub mod propagated;
pub mod tracks;
pub mod util;
