//! A QoS-governed publish/subscribe messaging core.
//!
//! The crate models topics, publishers and subscriptions whose behaviour is
//! negotiated through quality-of-service policy sets: compatibility between
//! an offered and a requested policy set is resolved pairwise, matched pairs
//! exchange samples through per-endpoint history buffers, and delivery obeys
//! the resolved reliability, history, durability and lifespan policies.
//! Liveliness and deadline monitoring are provided as advisory status
//! queries over the same state.

pub mod qos;
pub mod resolver;
pub mod history;
pub mod node;
pub mod monitor;
