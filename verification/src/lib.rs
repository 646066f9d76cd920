//! Verified core of an OpenAPI validation workbench.
//!
//! The library covers the validation pipeline: building container commands,
//! scheduling lint / generate / compile phases, parsing linter output,
//! indexing a spec source by JSON Pointer, and synthesizing mechanical fixes.
//! Process launching, file I/O and the terminal front end live outside the
//! library and only hand plain values in and out.

pub mod browser;
pub mod config;
pub mod diff;
pub mod discovery;
pub mod docker;
pub mod fix;
pub mod loader;
pub mod log_parser;
pub mod pipeline;
pub mod specindex;
pub mod state;
pub mod style;
pub mod text;
