//! Scaffolding engine for backend projects: composes a base template with
//! optional overlays and materializes the result as a fresh directory tree.
//!
//! The engine itself performs no I/O.  It decides what has to be done and in
//! which order; the caller performs each step against a real file system and
//! reports the outcome back.  [`memfs`] holds an in-memory file system, and
//! [`engine`] runs the whole operation on it; [`copying`] holds the proof
//! that a copy is what [`engine`] says, and [`laws`] what follows of every
//! scaffold.
//!
//! [`response`], [`rate_limiter`], [`routes`] and [`schema`] hold the parts
//! of the REST template whose behaviour is fixed: its reply envelope with
//! the error taxonomy, its request limiter, its routing tables and the
//! statements that set its database up.

pub mod path;
pub mod error;
pub mod composer;
pub mod guard;
pub mod materializer;
pub mod orchestrator;
pub mod memfs;
pub mod engine;
pub mod copying;
pub mod laws;
pub mod response;
pub mod rate_limiter;
pub mod routes;
pub mod schema;
