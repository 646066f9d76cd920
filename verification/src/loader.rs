//! The subset of the configuration file that the front end reads. Every
//! field is optional; decoding the file and filling defaults happen
//! outside the library.

use vstd::prelude::*;

verus! {

/// Raw options read from a configuration file.
#[derive(Debug, Default)]
pub struct Config {
    pub spec: Option<String>,
    pub mode: Option<String>,
    pub lint: Option<bool>,
    pub generate: Option<bool>,
    pub compile: Option<bool>,
    pub linter: Option<String>,
    pub server_generators: Option<Vec<String>>,
    pub client_generators: Option<Vec<String>>,
    pub docker_timeout: Option<u64>,
    pub jobs: Option<usize>,
}

} // verus!
