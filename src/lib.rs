//! Scoped stylesheet compilation: selectors are rewritten to carry a per-scope hash,
//! and many scopes are gathered, checked for collisions and bundled.
pub mod block;
pub mod builder;
pub mod compiler;
pub mod config;
pub mod hash;
pub mod sanitize;
pub mod scoper;
pub mod syntax;
pub mod text;
