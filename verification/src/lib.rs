//! The schema, persistence and scheduling core of a small 2D game engine.
//!
//! One declarative listing of component kinds (see [`components`] and
//! [`registry`]) yields, for every kind: the record type, a default value,
//! a value copy, a named-field binary persistence format ([`codec`]), a
//! whole-world save/load and entity duplication over a `hecs` world
//! ([`store`]), a type-erased field access facade for generic tooling
//! ([`reflect`]), and a registry of per-frame update routines ([`systems`]).

pub mod codec;
pub mod components;
pub mod config;
pub mod reflect;
pub mod registry;
pub mod scene;
pub mod sprites;
pub mod store;
pub mod systems;
pub mod wire;
