//! An entity-component runtime for a tick-driven simulation: sparse
//! entity-indexed component stores, lazy inner joins across them, per-tick
//! systems chosen at compile time, and two component primitives, a keyed
//! frame animator and a one-tick-late change observer.

pub mod animator;
pub mod components;
pub mod gameplay;
pub mod join;
pub mod observer;
pub mod store;
pub mod systems;
