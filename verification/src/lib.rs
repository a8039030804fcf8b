//! A two-tier configuration cache and a scoped permission resolver.
//!
//! The configuration side keeps one global cache and one cache per guild,
//! lazily filled from a persistent key/value table, falling back from the
//! guild scope to the global scope and from there to each key's default.
//! The permission side resolves hierarchical scopes to permission bitsets,
//! layering global, guild, role and user grants into an effective set.

use vstd::prelude::*;

pub mod codec;
pub mod config;
pub mod kv;
pub mod permissions;
pub mod perms;
pub mod scope;

verus! {

} // verus!
