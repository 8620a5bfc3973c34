//! A strongly typed Event Tracing for Windows wrapper: the verified core.
//!
//! The library resolves ETW instrumentation manifests into a typed model, reads the options of
//! the wrapper generator, plans the provider structs and typed event methods generated for a
//! manifest, tracks a provider's enablement, and encodes event payload fields in the layouts
//! that ETW expects.

pub mod error;
pub mod types;
pub mod context;
pub mod field;
mod sealed;
pub mod text;
pub mod eventman;
pub mod numbers;
pub mod model;
pub mod idents;
pub mod message;
pub mod plan;
pub mod method;
pub mod provider;
pub mod args;

pub use crate::context::EtwContext;
pub use crate::error::Error;
pub use crate::types::{EventDescriptor, FileTime, Guid, SystemTime};
