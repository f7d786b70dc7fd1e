//! A process-wide configuration registry.
//!
//! Independent subsystems contribute configuration blocks under a namespace,
//! and any part of the program reads the merged configuration in full or by a
//! dot-separated key path, optionally converting the result to a typed value.
//!
//! The registry's content is modeled as a mathematical map from namespace
//! names to structured values, and every operation carries a contract stated
//! over that model.

pub mod laws;
pub mod path;
pub mod store;
pub mod value;
