//! Naming and existence resolution for mirrored services.
//!
//! A headless service of a source cluster is mirrored into a target cluster as
//! per-cluster shadow services. From the metadata of one such service this
//! crate derives the name of the logical parent service, the name of the
//! cross-cluster aggregation service, and, given what the service registry
//! answered, whether that aggregation service exists.

pub mod locator;
pub mod registry;
pub mod resolver;
pub mod service;
pub mod text;
