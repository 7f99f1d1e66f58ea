//! Entity-component storage: generational entity handles, per-kind component
//! arenas, bitset signatures and joined queries over several kinds.
pub mod bitset;
pub mod entity;
pub mod arena;
pub mod world;
pub mod join;
pub mod event;
pub mod scene;
