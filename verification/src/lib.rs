//! Core of an entity-component-system engine: columnar component storage
//! addressed by stable entity identifiers, read/write access descriptors with
//! conflict detection, a query engine with change tracking, and a label-based
//! system scheduler that orders systems by declared dependencies.

pub mod access;
pub mod archetype;
pub mod component;
pub mod entity;
pub mod label;
pub mod stage;
pub mod storage;
pub mod system;
pub mod system_container;
pub mod system_descriptor;
pub mod system_param;
pub mod system_set;
pub mod query;
pub mod tick;
pub mod world;
