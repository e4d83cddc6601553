//! A component runtime: a typed object store, a registry of component
//! suppliers keyed by component type, and the bookkeeping of an extension
//! loader.
pub mod table;
pub mod component;
pub mod config;
pub mod component_manager;
pub mod container;
pub mod components;
pub mod plugin;
pub mod loader;
