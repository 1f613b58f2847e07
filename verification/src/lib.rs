//! Verified core of an extension host: a manifest model with total
//! validation, a canonical manifest codec, a memoizing extension builder
//! with coalesced in-flight builds and atomic artifact publication, a
//! component host that tracks instance lifecycles across the sandbox
//! boundary, and a command registry that binds declared command ids to
//! running instances.

pub mod text;
pub mod manifest;
pub mod codec;
mod reader;
pub mod registry;
pub mod builder;
pub mod host;
pub mod api;
