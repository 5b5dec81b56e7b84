//! A persistent multiplayer farming game core: tiered advancement ladders
//! gated by cumulative experience, an aggregator that folds unlocked tiers
//! into effective-stats summaries, weighted-random outcome selectors, and a
//! checkpoint-based tick scheduler that catches up on missed cycles without
//! ever double-applying one.
#![verifier::loop_isolation(false)]

pub mod fixed;
pub mod advancement;
pub mod config;
pub mod hackstead;
pub mod spawn;
pub mod recipe;
pub mod plant;
pub mod rng;
pub mod timestamp;
pub mod farm;
pub mod frontend;
pub mod interact;
