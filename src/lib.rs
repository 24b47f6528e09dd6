//! An in-memory entity-component store: fixed-capacity sparse sets keyed by
//! entity id, and a registry that owns one sparse set per component type.

pub mod components;
pub mod entity;
pub mod world;
