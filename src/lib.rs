//! Projectile simulation core: batched, time-stamped projectile groups with
//! prefix compaction, sub-group partitioning and kill-once collision
//! scheduling against an enemy population.
pub mod vectors;
pub mod sub_groups;
pub mod enemy;
pub mod bullet_store;
pub mod collision;
pub mod laws;
pub mod framebuffers;
