//! Typed resources. Each module knows how to describe its desired state and
//! how to read what the machine holds of it. The journaling around a
//! mutation lives with whoever performs it, so a resource never decides what
//! is durable.

pub mod confinement;
pub mod environment;
pub mod file;
pub mod firewall;
pub mod integration;
pub mod path;
pub mod predicate;
pub mod registered;
pub mod registration;
pub mod registry;
pub mod shortcut;
