//! The decisions of an installer engine, verified.

pub mod acl;
pub mod action;
pub mod dependency;
pub mod elevation;
pub mod engine;
pub mod error;
pub mod i18n;
pub mod identity;
pub mod launch;
pub mod legacy;
pub mod lists;
pub mod machine;
pub mod metadata;
pub mod packed;
pub mod paths;
pub mod plan;
pub mod quiescence;
pub mod report;
pub mod resource;
pub mod restart;
pub mod scope;
pub mod state;
pub mod text;

pub use error::Error;
