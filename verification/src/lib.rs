//! Core of an embeddable expression-language interpreter for a stream/event
//! processing pipeline, together with the source-side actor that turns raw
//! connector bytes into routed events.
//!
//! The interpreter evaluates a small, statically parsed expression language
//! (records, arrays, patch/merge, pattern matching with guards,
//! comprehensions, path resolution over event/state/meta/local namespaces)
//! against a mutable run-time context. The source manager is a pure state
//! machine: it decides on every control-plane message and every pull result
//! what the surrounding task has to do next.

pub mod equal;
pub mod error;
pub mod groupby;
pub mod interp;
pub mod mutation;
pub mod node_id;
pub mod ops;
pub mod pattern;
pub mod source;
pub mod stmt;
pub mod stream;
pub mod testcfg;
pub mod value;
